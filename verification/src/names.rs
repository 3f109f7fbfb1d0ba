//! References to tables and columns.
use vstd::prelude::*;

use crate::text::{order_texts, text_lt, texts_lt, texts_view, Order};

verus! {

/// A path to a table, which may leave out the catalog, or the catalog and the
/// schema.
#[derive(Debug, PartialEq, Eq, Hash)]
pub enum TableReference {
    /// `table`
    Bare { table: String },
    /// `schema.table`
    Partial { schema: String, table: String },
    /// `catalog.schema.table`
    Full { catalog: String, schema: String, table: String },
}

/// The texts of a [`TableReference`].
pub enum TableReferenceView {
    Bare { table: Seq<char> },
    Partial { schema: Seq<char>, table: Seq<char> },
    Full { catalog: Seq<char>, schema: Seq<char>, table: Seq<char> },
}

impl View for TableReference {
    type V = TableReferenceView;

    open spec fn view(&self) -> TableReferenceView {
        match *self {
            TableReference::Bare { table } => TableReferenceView::Bare { table: table@ },
            TableReference::Partial { schema, table } => TableReferenceView::Partial {
                schema: schema@,
                table: table@,
            },
            TableReference::Full { catalog, schema, table } => TableReferenceView::Full {
                catalog: catalog@,
                schema: schema@,
                table: table@,
            },
        }
    }
}

impl Clone for TableReference {
    fn clone(&self) -> (r: Self)
        ensures
            r@ == self@,
    {
        match self {
            TableReference::Bare { table } => TableReference::Bare { table: table.clone() },
            TableReference::Partial { schema, table } => TableReference::Partial {
                schema: schema.clone(),
                table: table.clone(),
            },
            TableReference::Full { catalog, schema, table } => TableReference::Full {
                catalog: catalog.clone(),
                schema: schema.clone(),
                table: table.clone(),
            },
        }
    }
}

/// A reference with all three parts.
#[derive(Debug, PartialEq, Eq, Hash)]
pub struct ResolvedTableReference {
    pub catalog: String,
    pub schema: String,
    pub table: String,
}

impl TableReferenceView {
    /// The last part, which every reference has.
    pub open spec fn table(self) -> Seq<char> {
        match self {
            TableReferenceView::Bare { table } => table,
            TableReferenceView::Partial { table, .. } => table,
            TableReferenceView::Full { table, .. } => table,
        }
    }

    pub open spec fn schema(self) -> Option<Seq<char>> {
        match self {
            TableReferenceView::Bare { .. } => None,
            TableReferenceView::Partial { schema, .. } => Some(schema),
            TableReferenceView::Full { schema, .. } => Some(schema),
        }
    }

    pub open spec fn catalog(self) -> Option<Seq<char>> {
        match self {
            TableReferenceView::Full { catalog, .. } => Some(catalog),
            _ => None,
        }
    }

    /// Two references may name one table: the parts that both have are equal.
    pub open spec fn resolved_eq(self, other: Self) -> bool {
        &&& self.table() == other.table()
        &&& (self.schema() is Some && other.schema() is Some) ==> self.schema() == other.schema()
        &&& (self.catalog() is Some && other.catalog() is Some) ==> self.catalog()
            == other.catalog()
    }
}

impl TableReference {
    /// The table part.
    pub fn table(&self) -> (r: &String)
        ensures
            r@ == self@.table(),
    {
        match self {
            TableReference::Bare { table } => table,
            TableReference::Partial { table, .. } => table,
            TableReference::Full { table, .. } => table,
        }
    }

    /// The schema part, where there is one.
    pub fn schema(&self) -> (r: Option<&String>)
        ensures
            r is Some <==> self@.schema() is Some,
            r is Some ==> r->0@ == self@.schema()->0,
    {
        match self {
            TableReference::Bare { .. } => None,
            TableReference::Partial { schema, .. } => Some(schema),
            TableReference::Full { schema, .. } => Some(schema),
        }
    }

    /// The catalog part, where there is one.
    pub fn catalog(&self) -> (r: Option<&String>)
        ensures
            r is Some <==> self@.catalog() is Some,
            r is Some ==> r->0@ == self@.catalog()->0,
    {
        match self {
            TableReference::Full { catalog, .. } => Some(catalog),
            _ => None,
        }
    }

    /// Whether the two references are equal, part by part.
    pub fn same(&self, other: &Self) -> (r: bool)
        ensures
            r == (self@ == other@),
    {
        match (self, other) {
            (TableReference::Bare { table: a }, TableReference::Bare { table: b }) => *a == *b,
            (
                TableReference::Partial { schema: a, table: b },
                TableReference::Partial { schema: c, table: d },
            ) => *a == *c && *b == *d,
            (
                TableReference::Full { catalog: a, schema: b, table: c },
                TableReference::Full { catalog: d, schema: e, table: f },
            ) => *a == *d && *b == *e && *c == *f,
            _ => false,
        }
    }

    /// Fills in the parts that are left out.
    pub fn resolve(&self, default_catalog: &str, default_schema: &str) -> (r:
        ResolvedTableReference)
        ensures
            r.table@ == self@.table(),
            r.schema@ == (match self@.schema() {
                Some(schema) => schema,
                None => default_schema@,
            }),
            r.catalog@ == (match self@.catalog() {
                Some(catalog) => catalog,
                None => default_catalog@,
            }),
    {
        let schema = match self.schema() {
            Some(schema) => schema.clone(),
            None => default_schema.to_owned(),
        };
        let catalog = match self.catalog() {
            Some(catalog) => catalog.clone(),
            None => default_catalog.to_owned(),
        };
        ResolvedTableReference { catalog, schema, table: self.table().clone() }
    }
}

/// A column, with the table that it comes from where that is known.
#[derive(Debug, PartialEq, Eq, Hash)]
pub struct Column {
    pub relation: Option<TableReference>,
    pub name: String,
}

/// The texts of a [`Column`].
pub struct ColumnView {
    pub relation: Option<TableReferenceView>,
    pub name: Seq<char>,
}

/// The texts of an optional [`TableReference`].
pub open spec fn relation_view(relation: Option<TableReference>) -> Option<TableReferenceView> {
    match relation {
        Some(t) => Some(t@),
        None => None,
    }
}

impl View for Column {
    type V = ColumnView;

    open spec fn view(&self) -> ColumnView {
        ColumnView { relation: relation_view(self.relation), name: self.name@ }
    }
}

/// Copies an optional reference.
pub fn clone_relation(relation: &Option<TableReference>) -> (r: Option<TableReference>)
    ensures
        relation_view(r) == relation_view(*relation),
{
    match relation {
        Some(t) => Some(t.clone()),
        None => None,
    }
}

impl Clone for Column {
    fn clone(&self) -> (r: Self)
        ensures
            r@ == self@,
    {
        Column { relation: clone_relation(&self.relation), name: self.name.clone() }
    }
}

impl ColumnView {
    /// How many parts the reference to the table has.
    pub open spec fn rank(self) -> int {
        match self.relation {
            None => 0,
            Some(TableReferenceView::Bare { .. }) => 1,
            Some(TableReferenceView::Partial { .. }) => 2,
            Some(TableReferenceView::Full { .. }) => 3,
        }
    }

    /// The parts of the reference to the table, then the name.
    pub open spec fn parts(self) -> Seq<Seq<char>> {
        match self.relation {
            None => seq![self.name],
            Some(TableReferenceView::Bare { table }) => seq![table, self.name],
            Some(TableReferenceView::Partial { schema, table }) => seq![schema, table, self.name],
            Some(TableReferenceView::Full { catalog, schema, table }) => seq![
                catalog,
                schema,
                table,
                self.name,
            ],
        }
    }

    /// The order of columns: by the number of parts of the reference, then by
    /// the parts, then by the name.
    pub open spec fn lt(self, other: Self) -> bool {
        self.rank() < other.rank() || (self.rank() == other.rank() && texts_lt(
            self.parts(),
            other.parts(),
        ))
    }
}

pub proof fn lemma_column_lt_irreflexive(a: ColumnView)
    ensures
        !a.lt(a),
{
    crate::text::lemma_texts_lt_irreflexive(a.parts());
}

pub proof fn lemma_column_lt_transitive(a: ColumnView, b: ColumnView, c: ColumnView)
    requires
        a.lt(b),
        b.lt(c),
    ensures
        a.lt(c),
{
    if a.rank() == b.rank() && b.rank() == c.rank() {
        crate::text::lemma_texts_lt_transitive(a.parts(), b.parts(), c.parts());
    }
}

pub proof fn lemma_column_parts_injective(a: ColumnView, b: ColumnView)
    requires
        a.rank() == b.rank(),
        a.parts() == b.parts(),
    ensures
        a == b,
{
    assert(a.parts()[0] == b.parts()[0]);
    if a.rank() > 0 {
        assert(a.parts()[1] == b.parts()[1]);
    }
    if a.rank() > 1 {
        assert(a.parts()[2] == b.parts()[2]);
    }
    if a.rank() > 2 {
        assert(a.parts()[3] == b.parts()[3]);
    }
}

pub proof fn lemma_column_lt_total(a: ColumnView, b: ColumnView)
    ensures
        a.lt(b) || a == b || b.lt(a),
{
    if a.rank() == b.rank() {
        crate::text::lemma_texts_lt_total(a.parts(), b.parts());
        if a.parts() == b.parts() {
            lemma_column_parts_injective(a, b);
        }
    }
}

impl Column {
    pub fn new(relation: Option<TableReference>, name: String) -> (r: Self)
        ensures
            r@ == (ColumnView { relation: relation_view(relation), name: name@ }),
    {
        Column { relation, name }
    }

    /// A column whose table is not named.
    pub fn new_unqualified(name: String) -> (r: Self)
        ensures
            r@ == (ColumnView { relation: None, name: name@ }),
    {
        Column { relation: None, name }
    }

    /// Whether the two columns are equal.
    pub fn same(&self, other: &Self) -> (r: bool)
        ensures
            r == (self@ == other@),
    {
        if self.name != other.name {
            return false;
        }
        match (&self.relation, &other.relation) {
            (None, None) => true,
            (Some(a), Some(b)) => a.same(b),
            _ => false,
        }
    }

    fn rank(&self) -> (r: u8)
        ensures
            r == self@.rank(),
    {
        match &self.relation {
            None => 0,
            Some(TableReference::Bare { .. }) => 1,
            Some(TableReference::Partial { .. }) => 2,
            Some(TableReference::Full { .. }) => 3,
        }
    }

    fn parts(&self) -> (r: Vec<&str>)
        ensures
            texts_view(r@) == self@.parts(),
    {
        let mut r: Vec<&str> = Vec::new();
        match &self.relation {
            None => {},
            Some(TableReference::Bare { table }) => {
                r.push(table.as_str());
            },
            Some(TableReference::Partial { schema, table }) => {
                r.push(schema.as_str());
                r.push(table.as_str());
            },
            Some(TableReference::Full { catalog, schema, table }) => {
                r.push(catalog.as_str());
                r.push(schema.as_str());
                r.push(table.as_str());
            },
        }
        r.push(self.name.as_str());
        assert(texts_view(r@) =~= self@.parts());
        r
    }

    /// Compares two columns in the order of columns.
    pub fn order(&self, other: &Self) -> (r: Order)
        ensures
            r is Less <==> self@.lt(other@),
            r is Equal <==> self@ == other@,
            r is Greater <==> other@.lt(self@),
    {
        let a = self.rank();
        let b = other.rank();
        if a < b {
            Order::Less
        } else if b < a {
            Order::Greater
        } else {
            let r = order_texts(&self.parts(), &other.parts());
            proof {
                if self@.parts() == other@.parts() {
                    lemma_column_parts_injective(self@, other@);
                }
            }
            r
        }
    }
}

/// The texts of a list of columns.
pub open spec fn columns_view(s: Seq<Column>) -> Seq<ColumnView> {
    Seq::new(s.len(), |i: int| s[i]@)
}

/// The texts of a list of references.
pub open spec fn references_view(s: Seq<TableReference>) -> Seq<TableReferenceView> {
    Seq::new(s.len(), |i: int| s[i]@)
}

/// Copies a list of columns.
pub fn clone_columns(v: &Vec<Column>) -> (r: Vec<Column>)
    ensures
        columns_view(r@) == columns_view(v@),
{
    let mut r: Vec<Column> = Vec::new();
    for i in 0..v.len()
        invariant
            r@.len() == i,
            forall|j: int| 0 <= j < i ==> (#[trigger] r@[j])@ == v@[j]@,
    {
        r.push(v[i].clone());
    }
    assert(columns_view(r@) =~= columns_view(v@));
    r
}

/// Copies a list of references.
pub fn clone_references(v: &Vec<TableReference>) -> (r: Vec<TableReference>)
    ensures
        references_view(r@) == references_view(v@),
{
    let mut r: Vec<TableReference> = Vec::new();
    for i in 0..v.len()
        invariant
            r@.len() == i,
            forall|j: int| 0 <= j < i ==> (#[trigger] r@[j])@ == v@[j]@,
    {
        r.push(v[i].clone());
    }
    assert(references_view(r@) =~= references_view(v@));
    r
}

/// Columns that do not name a table come first, then those that name it alone,
/// then those that name its schema, and then those that name its catalog.
pub proof fn columns_with_fewer_parts_come_first(a: ColumnView, b: ColumnView)
    ensures
        a.relation is None && b.relation is Some ==> a.lt(b) && !b.lt(a),
        a.relation matches Some(r) ==> b.relation matches Some(s) ==> {
            &&& r is Bare && !(s is Bare) ==> a.lt(b) && !b.lt(a)
            &&& r is Partial && s is Full ==> a.lt(b) && !b.lt(a)
        },
{
}

proof fn lemma_texts_lt_step(a: Seq<Seq<char>>, b: Seq<Seq<char>>)
    requires
        a.len() > 0,
        a.len() == b.len(),
    ensures
        texts_lt(a, b) <==> text_lt(a[0], b[0]) || a[0] == b[0] && texts_lt(
            a.drop_first(),
            b.drop_first(),
        ),
{
    crate::text::lemma_text_lt_irreflexive(a[0]);
}

/// Columns of tables that are named by as many parts are ordered by the catalog,
/// then the schema, then the table and then the name of the column.
pub proof fn columns_are_ordered_by_their_parts(a: ColumnView, b: ColumnView)
    requires
        a.relation is None <==> b.relation is None,
        a.relation matches Some(r) ==> r.schema() is Some <==> b.relation->0.schema() is Some,
        a.relation matches Some(r) ==> r.catalog() is Some <==> b.relation->0.catalog() is Some,
    ensures
        a.relation == b.relation ==> (a.lt(b) <==> text_lt(a.name, b.name)),
        a.relation matches Some(r) ==> {
            let s = b.relation->0;
            &&& r.catalog() == s.catalog() && r.schema() == s.schema() && r.table() != s.table()
                ==> (a.lt(b) <==> text_lt(r.table(), s.table()))
            &&& r.catalog() == s.catalog() && r.schema() != s.schema() ==> (a.lt(b) <==> text_lt(
                r.schema()->0,
                s.schema()->0,
            ))
            &&& r.catalog() != s.catalog() ==> (a.lt(b) <==> text_lt(
                r.catalog()->0,
                s.catalog()->0,
            ))
        },
{
    let (p, q) = (a.parts(), b.parts());
    assert(p.len() == q.len());
    lemma_texts_lt_step(p, q);
    if p.len() > 1 {
        let (p1, q1) = (p.drop_first(), q.drop_first());
        lemma_texts_lt_step(p1, q1);
        if p.len() > 2 {
            let (p2, q2) = (p1.drop_first(), q1.drop_first());
            lemma_texts_lt_step(p2, q2);
            if p.len() > 3 {
                let (p3, q3) = (p2.drop_first(), q2.drop_first());
                lemma_texts_lt_step(p3, q3);
                assert(!texts_lt(p3.drop_first(), q3.drop_first()));
            } else {
                assert(!texts_lt(p2.drop_first(), q2.drop_first()));
            }
        } else {
            assert(!texts_lt(p1.drop_first(), q1.drop_first()));
        }
    } else {
        assert(!texts_lt(p.drop_first(), q.drop_first()));
    }
    crate::text::lemma_text_lt_irreflexive(a.name);
}

/// The parts of a reference are those that it was written with.
pub proof fn references_have_the_parts_they_are_written_with(
    catalog: Seq<char>,
    schema: Seq<char>,
    table: Seq<char>,
)
    ensures
        ({
            let bare = TableReferenceView::Bare { table };
            let partial = TableReferenceView::Partial { schema, table };
            let full = TableReferenceView::Full { catalog, schema, table };
            &&& bare.table() == table && partial.table() == table && full.table() == table
            &&& bare.schema() is None && partial.schema() == Some(schema) && full.schema() == Some(
                schema,
            )
            &&& bare.catalog() is None && partial.catalog() is None && full.catalog() == Some(
                catalog,
            )
        }),
{
}

} // verus!
