//! Schemas, and how columns are looked up in them.
//!
//! The lookups are DataFusion's. The functions of this module that make them
//! state which field they find.
use std::collections::HashSet;
use std::sync::Arc;

use arrow_schema::DataType as OutsideType;
use arrow_schema::Field as OutsideField;
use arrow_schema::Schema as OutsideSchema;
use datafusion_common::Column as OutsideColumn;
use datafusion_common::DFSchema as OutsideDFSchema;
use datafusion_common::DataFusionError;
use datafusion_common::SchemaError as OutsideSchemaError;
use datafusion_common::TableReference as OutsideReference;
use vstd::prelude::*;

use crate::error::{Error, ErrorView};
use crate::names::{
    clone_relation, columns_view, relation_view, Column, ColumnView, TableReference,
    TableReferenceView,
};
use crate::scalar::{DataType, DataTypeView};

verus! {

/// DataFusion's name of a table.
#[verifier::external_type_specification]
#[verifier::external_body]
pub struct ExOutsideReference(OutsideReference);

/// DataFusion's name of a column.
#[verifier::external_type_specification]
#[verifier::external_body]
pub struct ExOutsideColumn(OutsideColumn);

/// DataFusion's schema.
#[verifier::external_type_specification]
#[verifier::external_body]
pub struct ExOutsideDFSchema(OutsideDFSchema);

/// A field of a table, as its source describes it.
#[derive(Debug, PartialEq, Eq, Hash)]
pub struct SourceField {
    pub name: String,
    pub data_type: DataType,
}

/// The texts of a [`SourceField`].
pub struct SourceFieldView {
    pub name: Seq<char>,
    pub data_type: DataTypeView,
}

impl View for SourceField {
    type V = SourceFieldView;

    open spec fn view(&self) -> SourceFieldView {
        SourceFieldView { name: self.name@, data_type: self.data_type@ }
    }
}

/// The texts of a list of fields of a table.
pub open spec fn source_view(s: Seq<SourceField>) -> Seq<SourceFieldView> {
    Seq::new(s.len(), |i: int| s[i]@)
}

/// A field of a plan's output.
#[derive(Debug, PartialEq, Eq, Hash)]
pub struct Field {
    pub qualifier: Option<TableReference>,
    pub name: String,
    pub data_type: DataType,
}

/// A field as the column that it is, and its type.
pub struct FieldView {
    pub column: ColumnView,
    pub data_type: DataTypeView,
}

impl View for Field {
    type V = FieldView;

    open spec fn view(&self) -> FieldView {
        FieldView {
            column: ColumnView { relation: relation_view(self.qualifier), name: self.name@ },
            data_type: self.data_type@,
        }
    }
}

impl Clone for Field {
    fn clone(&self) -> (r: Self)
        ensures
            r@ == self@,
    {
        Field {
            qualifier: clone_relation(&self.qualifier),
            name: self.name.clone(),
            data_type: self.data_type.clone(),
        }
    }
}

/// The fields of a plan's output.
#[derive(Debug, PartialEq, Eq, Hash)]
pub struct DFSchema {
    pub fields: Vec<Field>,
}

impl View for DFSchema {
    type V = Seq<FieldView>;

    open spec fn view(&self) -> Seq<FieldView> {
        Seq::new(self.fields@.len(), |i: int| self.fields@[i]@)
    }
}

impl Clone for DFSchema {
    fn clone(&self) -> (r: Self)
        ensures
            r@ == self@,
    {
        let mut fields: Vec<Field> = Vec::new();
        for i in 0..self.fields.len()
            invariant
                fields@.len() == i,
                forall|j: int| 0 <= j < i ==> (#[trigger] fields@[j])@ == self.fields@[j]@,
        {
            fields.push(self.fields[i].clone());
        }
        let r = DFSchema { fields };
        assert(r@ =~= self@);
        r
    }
}

/// The columns of a schema.
pub open spec fn schema_columns(fields: Seq<FieldView>) -> Seq<ColumnView> {
    Seq::new(fields.len(), |i: int| fields[i].column)
}

/// The fields of a table, each qualified by the name of the table.
pub open spec fn qualified(table: TableReferenceView, source: Seq<SourceFieldView>) -> Seq<
    FieldView,
> {
    Seq::new(
        source.len(),
        |i: int|
            FieldView {
                column: ColumnView { relation: Some(table), name: source[i].name },
                data_type: source[i].data_type,
            },
    )
}

/// The first column of a list that the list has before.
pub open spec fn first_repeated(s: Seq<ColumnView>) -> Option<ColumnView>
    decreases s.len(),
{
    if s.len() == 0 {
        None
    } else {
        match first_repeated(s.drop_last()) {
            Some(c) => Some(c),
            None => if s.drop_last().contains(s.last()) {
                Some(s.last())
            } else {
                None
            },
        }
    }
}

/// The field goes by the name of the column. A column that names its table is
/// looked up among the fields that name theirs, and the two may name the table
/// with more or fewer parts.
pub open spec fn goes_by(field: FieldView, column: ColumnView) -> bool {
    &&& field.column.name == column.name
    &&& match column.relation {
        Some(relation) => field.column.relation is Some && relation.resolved_eq(
            field.column.relation->0,
        ),
        None => true,
    }
}

/// The place of the first field that goes by the name of the column.
pub open spec fn index_of(fields: Seq<FieldView>, column: ColumnView) -> Option<int>
    decreases fields.len(),
{
    if fields.len() == 0 {
        None
    } else {
        match index_of(fields.drop_last(), column) {
            Some(i) => Some(i),
            None => if goes_by(fields.last(), column) {
                Some(fields.len() - 1)
            } else {
                None
            },
        }
    }
}

/// The fields with a name, whatever their table.
pub open spec fn named(fields: Seq<FieldView>, name: Seq<char>) -> Seq<FieldView>
    decreases fields.len(),
{
    if fields.len() == 0 {
        Seq::empty()
    } else if fields.last().column.name == name {
        named(fields.drop_last(), name).push(fields.last())
    } else {
        named(fields.drop_last(), name)
    }
}

/// The fields that do not name their table.
pub open spec fn unqualified(fields: Seq<FieldView>) -> Seq<FieldView>
    decreases fields.len(),
{
    if fields.len() == 0 {
        Seq::empty()
    } else if fields.last().column.relation is None {
        unqualified(fields.drop_last()).push(fields.last())
    } else {
        unqualified(fields.drop_last())
    }
}

/// The field that a column stands for. A column that does not name its table
/// stands for the one field of that name, or, among several, for the one that
/// does not name its table either.
pub open spec fn field_of(fields: Seq<FieldView>, column: ColumnView) -> Result<
    FieldView,
    ErrorView,
> {
    if column.relation is Some {
        match index_of(fields, column) {
            Some(i) => Ok(fields[i]),
            None => Err(ErrorView::FieldNotFound(column)),
        }
    } else {
        let candidates = named(fields, column.name);
        if candidates.len() == 0 {
            Err(ErrorView::FieldNotFound(column))
        } else if candidates.len() == 1 {
            Ok(candidates[0])
        } else if unqualified(candidates).len() == 1 {
            Ok(unqualified(candidates)[0])
        } else {
            Err(ErrorView::AmbiguousReference(column))
        }
    }
}

/// The columns with a name in a list of schemas, one schema after the other.
pub open spec fn all_named(schemas: Seq<Seq<FieldView>>, name: Seq<char>) -> Seq<ColumnView>
    decreases schemas.len(),
{
    if schemas.len() == 0 {
        Seq::empty()
    } else {
        all_named(schemas.drop_last(), name) + schema_columns(named(schemas.last(), name))
    }
}

/// Every column of the list is in the set.
pub open spec fn all_in(columns: Seq<ColumnView>, set: Seq<ColumnView>) -> bool {
    forall|i: int| 0 <= i < columns.len() ==> set.contains(#[trigger] columns[i])
}

/// The column with its table named. Among several columns of that name the
/// first is taken where a join has made all of them equal.
pub open spec fn normalized_column(
    column: ColumnView,
    schemas: Seq<Seq<FieldView>>,
    using: Seq<Seq<ColumnView>>,
) -> Result<ColumnView, ErrorView> {
    let candidates = all_named(schemas, column.name);
    if column.relation is Some {
        Ok(column)
    } else if candidates.len() == 0 {
        Err(ErrorView::FieldNotFound(column))
    } else if candidates.len() == 1 || exists|i: int|
        0 <= i < using.len() && all_in(candidates, #[trigger] using[i]) {
        Ok(candidates[0])
    } else {
        Err(ErrorView::AmbiguousReference(column))
    }
}

/// A place that a column has in a schema is that of a field of its name.
pub proof fn lemma_index_of(fields: Seq<FieldView>, column: ColumnView)
    ensures
        match index_of(fields, column) {
            Some(i) => 0 <= i < fields.len() && goes_by(fields[i], column),
            None => forall|i: int| 0 <= i < fields.len() ==> !goes_by(#[trigger] fields[i], column),
        },
    decreases fields.len(),
{
    if fields.len() > 0 {
        let front = fields.drop_last();
        lemma_index_of(front, column);
        if index_of(fields, column) is None {
            assert forall|i: int| 0 <= i < fields.len() implies !goes_by(
                #[trigger] fields[i],
                column,
            ) by {
                if i < front.len() {
                    assert(front[i] == fields[i]);
                }
            }
        }
    }
}

/// The fields with a name are the fields of the schema that have it.
proof fn lemma_named(fields: Seq<FieldView>, name: Seq<char>)
    ensures
        forall|f: FieldView|
            #![trigger named(fields, name).contains(f)]
            named(fields, name).contains(f) <==> fields.contains(f) && f.column.name == name,
    decreases fields.len(),
{
    if fields.len() > 0 {
        let front = fields.drop_last();
        lemma_named(front, name);
        lemma_contains_last(fields);
        if fields.last().column.name == name {
            lemma_contains_last(named(fields, name));
            assert(named(fields, name).drop_last() =~= named(front, name));
        }
    }
}

/// The fields without a table are the fields that do not name one.
proof fn lemma_unqualified(fields: Seq<FieldView>)
    ensures
        forall|f: FieldView|
            #![trigger unqualified(fields).contains(f)]
            unqualified(fields).contains(f) <==> fields.contains(f) && f.column.relation is None,
    decreases fields.len(),
{
    if fields.len() > 0 {
        let front = fields.drop_last();
        lemma_unqualified(front);
        lemma_contains_last(fields);
        if fields.last().column.relation is None {
            lemma_contains_last(unqualified(fields));
            assert(unqualified(fields).drop_last() =~= unqualified(front));
        }
    }
}

/// A list holds its last element and those before.
proof fn lemma_contains_last(fields: Seq<FieldView>)
    requires
        fields.len() > 0,
    ensures
        forall|f: FieldView|
            #![trigger fields.contains(f)]
            fields.contains(f) <==> fields.drop_last().contains(f) || f == fields.last(),
{
    let front = fields.drop_last();
    assert forall|f: FieldView| #[trigger] fields.contains(f) implies front.contains(f) || f
        == fields.last() by {
        let i = choose|i: int| 0 <= i < fields.len() && fields[i] == f;
        if i < front.len() {
            assert(front[i] == f);
        }
    }
    assert forall|f: FieldView| front.contains(f) || f == fields.last() implies
        #[trigger] fields.contains(f) by {
        if front.contains(f) {
            let i = choose|i: int| 0 <= i < front.len() && front[i] == f;
            assert(fields[i] == f);
        } else {
            assert(fields[fields.len() - 1] == f);
        }
    }
}

/// The place of a column is the first of those whose fields go by its name.
pub proof fn lemma_index_of_first(fields: Seq<FieldView>, column: ColumnView, k: int)
    requires
        0 <= k < fields.len(),
        goes_by(fields[k], column),
    ensures
        index_of(fields, column) is Some,
        index_of(fields, column)->0 <= k,
    decreases fields.len(),
{
    let front = fields.drop_last();
    lemma_index_of(front, column);
    if k < front.len() {
        assert(front[k] == fields[k]);
        lemma_index_of_first(front, column, k);
    }
}

/// The field that a column stands for is one of the schema, and the first with
/// its table and its name.
proof fn lemma_field_of(fields: Seq<FieldView>, column: ColumnView)
    requires
        field_of(fields, column) is Ok,
    ensures
        fields.contains(field_of(fields, column)->Ok_0),
        forall|k: int|
            0 <= k < fields.len() && (#[trigger] fields[k]).column == field_of(
                fields,
                column,
            )->Ok_0.column && (forall|j: int|
                0 <= j < k ==> (#[trigger] fields[j]).column != field_of(
                    fields,
                    column,
                )->Ok_0.column) ==> fields[k] == field_of(fields, column)->Ok_0,
{
    let found = field_of(fields, column)->Ok_0;
    if column.relation is Some {
        lemma_index_of(fields, column);
        let i = index_of(fields, column)->0;
        assert forall|k: int|
            0 <= k < fields.len() && (#[trigger] fields[k]).column == found.column && (forall|j: int|
                0 <= j < k ==> (#[trigger] fields[j]).column != found.column) implies fields[k]
            == found by {
            lemma_index_of_first(fields, column, k);
            assert(fields[i].column == found.column);
        }
    } else {
        let candidates = named(fields, column.name);
        lemma_named(fields, column.name);
        lemma_unqualified(candidates);
        assert(candidates.contains(candidates[0]));
        if candidates.len() > 1 {
            assert(unqualified(candidates).contains(unqualified(candidates)[0]));
        }
        assert forall|k: int|
            0 <= k < fields.len() && (#[trigger] fields[k]).column == found.column implies fields[k]
            == found by {
            assert(fields.contains(fields[k]));
            assert(candidates.contains(fields[k]));
            if candidates.len() > 1 {
                assert(unqualified(candidates).contains(fields[k]));
            }
        }
    }
}

impl Field {
    /// The column that the field is.
    pub fn column(&self) -> (r: Column)
        ensures
            r@ == self@.column,
    {
        Column { relation: clone_relation(&self.qualifier), name: self.name.clone() }
    }
}

/// The views of a list of schemas.
pub open spec fn schemas_view(s: Seq<&DFSchema>) -> Seq<Seq<FieldView>> {
    Seq::new(s.len(), |i: int| s[i]@)
}

/// The sets of columns of a list of lists.
pub open spec fn column_sets_view(s: Seq<Vec<Column>>) -> Seq<Seq<ColumnView>> {
    Seq::new(s.len(), |i: int| columns_view(s[i]@))
}

/// Whether a list has a column.
pub fn has_column(columns: &Vec<Column>, column: &Column) -> (r: bool)
    ensures
        r == columns_view(columns@).contains(column@),
{
    for i in 0..columns.len()
        invariant
            forall|j: int| 0 <= j < i ==> (#[trigger] columns_view(columns@)[j]) != column@,
    {
        if columns[i].same(column) {
            assert(columns_view(columns@)[i as int] == column@);
            return true;
        }
    }
    false
}

// ---------------------------------------------------------------------------
// Conversions. They change the type of a value and keep what it holds.
// ---------------------------------------------------------------------------

/// The `TableReference` of DataFusion with the same parts.
#[verifier::external_body]
fn reference_to_outside(reference: &TableReference) -> OutsideReference {
    match reference {
        TableReference::Bare { table } => OutsideReference::bare(table.as_str()),
        TableReference::Partial { schema, table } => {
            OutsideReference::partial(schema.as_str(), table.as_str())
        },
        TableReference::Full { catalog, schema, table } => {
            OutsideReference::full(catalog.as_str(), schema.as_str(), table.as_str())
        },
    }
}

/// The name of a table of this library with the same parts.
#[verifier::external_body]
fn reference_from_outside(reference: &OutsideReference) -> TableReference {
    match reference {
        OutsideReference::Bare { table } => TableReference::Bare { table: table.to_string() },
        OutsideReference::Partial { schema, table } => {
            TableReference::Partial { schema: schema.to_string(), table: table.to_string() }
        },
        OutsideReference::Full { catalog, schema, table } => TableReference::Full {
            catalog: catalog.to_string(),
            schema: schema.to_string(),
            table: table.to_string(),
        },
    }
}

/// The `Column` of DataFusion with the same table and name.
#[verifier::external_body]
fn column_to_outside(column: &Column) -> OutsideColumn {
    OutsideColumn::new(column.relation.as_ref().map(reference_to_outside), column.name.as_str())
}

/// The column of this library with the same table and name.
#[verifier::external_body]
fn column_from_outside(column: &OutsideColumn) -> Column {
    Column {
        relation: column.relation.as_ref().map(reference_from_outside),
        name: column.name.clone(),
    }
}

/// The `DFSchema` of DataFusion with the same names of fields, in the same
/// order, all of one type. Its constructors refuse a schema in which a name is
/// ambiguous, and `with_field_specific_qualified_schema` does not: so the fields
/// are first qualified by their places, which all differ.
#[verifier::external_body]
fn schema_to_outside(schema: &DFSchema) -> Result<OutsideDFSchema, DataFusionError> {
    let places = (0..schema.fields.len()).map(|i| Some(OutsideReference::bare(i.to_string())));
    let names = schema.fields.iter().map(|f| OutsideField::new(&f.name, OutsideType::Null, true));
    let tables = schema.fields.iter().map(|f| f.qualifier.as_ref().map(reference_to_outside));
    OutsideDFSchema::from_field_specific_qualified_schema(
        places.collect(),
        &Arc::new(OutsideSchema::new(names.collect::<Vec<OutsideField>>())),
    )?.with_field_specific_qualified_schema(tables.collect())
}

/// The error of this library that says what a `SchemaError` of DataFusion says,
/// whatever it is wrapped in. The lookups below fail with nothing else.
#[verifier::external_body]
fn schema_error(e: DataFusionError) -> Error {
    match e.find_root() {
        DataFusionError::SchemaError(schema_error, _) => match schema_error.as_ref() {
            OutsideSchemaError::AmbiguousReference { field } =>
                Error::AmbiguousReference(column_from_outside(field)),
            OutsideSchemaError::FieldNotFound { field, .. } =>
                Error::FieldNotFound(column_from_outside(field)),
            OutsideSchemaError::DuplicateQualifiedField { qualifier: table, name } => {
                let relation = Some(reference_from_outside(table));
                Error::DuplicateField(Column { relation, name: name.clone() })
            },
            OutsideSchemaError::DuplicateUnqualifiedField { name } =>
                Error::DuplicateField(Column { relation: None, name: name.clone() }),
        },
        other => Error::UnsupportedPlan(other.to_string()),
    }
}

// ---------------------------------------------------------------------------
// DataFusion's functions.
// ---------------------------------------------------------------------------

/// `DFSchema::try_from_qualified_schema`: the schema of a table, of which the
/// columns are taken. It fails on the first field whose name the table has
/// before.
#[verifier::external_body]
fn outside_qualified_columns(table: &TableReference, source: &Vec<SourceField>) -> (r: Result<
    Vec<Column>,
    Error,
>)
    ensures
        match r {
            Ok(columns) => columns_view(columns@) == schema_columns(
                qualified(table@, source_view(source@)),
            ) && first_repeated(schema_columns(qualified(table@, source_view(source@)))) is None,
            Err(e) => first_repeated(
                schema_columns(qualified(table@, source_view(source@))),
            ) matches Some(c) && e@ == ErrorView::DuplicateField(c),
        },
{
    let fields = source.iter().map(|f| OutsideField::new(&f.name, OutsideType::Null, true));
    let schema = OutsideSchema::new(fields.collect::<Vec<OutsideField>>());
    OutsideDFSchema::try_from_qualified_schema(reference_to_outside(table), &schema)
        .map(|s| s.columns().iter().map(column_from_outside).collect())
        .map_err(schema_error)
}

/// `DFSchema::maybe_index_of_column`: the place of the first field that goes by
/// the name of the column.
#[verifier::external_body]
fn outside_maybe_index_of_column(schema: &DFSchema, column: &Column) -> (r: Option<usize>)
    ensures
        (r is Some <==> index_of(schema@, column@) is Some),
        r is Some ==> r->0 == index_of(schema@, column@)->0,
{
    schema_to_outside(schema).ok()?.maybe_index_of_column(&column_to_outside(column))
}

/// `DFSchema::qualified_field_from_column`: the column of the field that a
/// column stands for.
#[verifier::external_body]
fn outside_field_from_column(schema: &DFSchema, column: &Column) -> (r: Result<Column, Error>)
    ensures
        (r is Ok <==> field_of(schema@, column@) is Ok),
        r is Ok ==> r->Ok_0@ == field_of(schema@, column@)->Ok_0.column,
        r is Err ==> r->Err_0@ == field_of(schema@, column@)->Err_0,
{
    let schema = schema_to_outside(schema).map_err(schema_error)?;
    let (table, field) = schema
        .qualified_field_from_column(&column_to_outside(column))
        .map_err(schema_error)?;
    Ok(Column { relation: table.map(reference_from_outside), name: field.name().clone() })
}

/// `Column::normalize_with_schemas_and_ambiguity_check`, with the schemas on
/// one level: the column with its table named.
#[verifier::external_body]
fn outside_normalize(column: &Column, schemas: &Vec<&DFSchema>, using: &Vec<Vec<Column>>) -> (r:
    Result<Column, Error>)
    ensures
        (r is Ok <==> normalized_column(
            column@,
            schemas_view(schemas@),
            column_sets_view(using@),
        ) is Ok),
        r is Ok ==> r->Ok_0@ == normalized_column(
            column@,
            schemas_view(schemas@),
            column_sets_view(using@),
        )->Ok_0,
        r is Err ==> r->Err_0@ == normalized_column(
            column@,
            schemas_view(schemas@),
            column_sets_view(using@),
        )->Err_0,
{
    let schemas = schemas.iter().map(|s| schema_to_outside(s)).collect::<Result<Vec<_>, _>>();
    let schemas = schemas.map_err(schema_error)?;
    let level: Vec<&OutsideDFSchema> = schemas.iter().collect();
    let using: Vec<HashSet<OutsideColumn>> =
        using.iter().map(|set| set.iter().map(column_to_outside).collect()).collect();
    column_to_outside(column)
        .normalize_with_schemas_and_ambiguity_check(&[&level], &using)
        .map(|c| column_from_outside(&c))
        .map_err(schema_error)
}

impl DFSchema {
    /// The schema of a table whose fields are qualified by its name. It fails
    /// where two fields have one name.
    pub fn try_from_qualified_schema(table: &TableReference, source: &Vec<SourceField>) -> (r:
        Result<Self, Error>)
        ensures
            match r {
                Ok(schema) => schema@ == qualified(table@, source_view(source@)) && first_repeated(
                    schema_columns(qualified(table@, source_view(source@))),
                ) is None,
                Err(e) => first_repeated(
                    schema_columns(qualified(table@, source_view(source@))),
                ) matches Some(c) && e@ == ErrorView::DuplicateField(c),
            },
    {
        let columns = match outside_qualified_columns(table, source) {
            Ok(columns) => columns,
            Err(e) => return Err(e),
        };
        let ghost all = qualified(table@, source_view(source@));
        assert(columns_view(columns@).len() == source@.len());
        let mut fields: Vec<Field> = Vec::new();
        for i in 0..source.len()
            invariant
                all == qualified(table@, source_view(source@)),
                columns@.len() == source@.len(),
                columns_view(columns@) == schema_columns(all),
                fields@.len() == i,
                forall|j: int| 0 <= j < i ==> (#[trigger] fields@[j])@ == all[j],
        {
            assert(columns_view(columns@)[i as int] == all[i as int].column);
            fields.push(
                Field {
                    qualifier: clone_relation(&columns[i].relation),
                    name: columns[i].name.clone(),
                    data_type: source[i].data_type.clone(),
                },
            );
        }
        let r = DFSchema { fields };
        assert(r@ =~= all);
        Ok(r)
    }

    /// The columns of the schema.
    pub fn columns(&self) -> (r: Vec<Column>)
        ensures
            columns_view(r@) == schema_columns(self@),
    {
        let mut r: Vec<Column> = Vec::new();
        for i in 0..self.fields.len()
            invariant
                r@.len() == i,
                forall|j: int| 0 <= j < i ==> (#[trigger] r@[j])@ == self@[j].column,
        {
            r.push(self.fields[i].column());
        }
        assert(columns_view(r@) =~= schema_columns(self@));
        r
    }

    /// The place of the first field that goes by the name of the column.
    pub fn maybe_index_of_column(&self, column: &Column) -> (r: Option<usize>)
        ensures
            r is Some <==> index_of(self@, column@) is Some,
            r is Some ==> r->0 == index_of(self@, column@)->0 && r->0 < self@.len(),
    {
        proof {
            lemma_index_of(self@, column@);
        }
        outside_maybe_index_of_column(self, column)
    }

    /// The type of the field that a column stands for.
    pub fn data_type(&self, column: &Column) -> (r: Result<DataType, Error>)
        ensures
            r is Ok <==> field_of(self@, column@) is Ok,
            r is Ok ==> r->Ok_0@ == field_of(self@, column@)->Ok_0.data_type,
            r is Err ==> r->Err_0@ == field_of(self@, column@)->Err_0,
    {
        let found = match outside_field_from_column(self, column) {
            Ok(found) => found,
            Err(e) => return Err(e),
        };
        let ghost field = field_of(self@, column@)->Ok_0;
        proof {
            lemma_field_of(self@, column@);
        }
        for i in 0..self.fields.len()
            invariant
                found@ == field.column,
                self@.contains(field),
                forall|k: int|
                    0 <= k < self@.len() && (#[trigger] self@[k]).column == field.column && (forall|
                        j: int,
                    |
                        0 <= j < k ==> (#[trigger] self@[j]).column != field.column) ==> self@[k]
                        == field,
                forall|j: int| 0 <= j < i ==> (#[trigger] self@[j]).column != field.column,
                field_of(self@, column@) == Ok::<FieldView, ErrorView>(field),
        {
            assert(self@[i as int] == self.fields@[i as int]@);
            if self.fields[i].column().same(&found) {
                return Ok(self.fields[i].data_type.clone());
            }
        }
        assert(false);
        Err(Error::FieldNotFound(found))
    }
}

/// A list without repetitions has no column twice.
pub proof fn lemma_not_repeated(s: Seq<ColumnView>)
    requires
        first_repeated(s) is None,
    ensures
        forall|i: int, j: int| 0 <= i < j < s.len() ==> s[i] != s[j],
    decreases s.len(),
{
    if s.len() > 0 {
        let front = s.drop_last();
        lemma_not_repeated(front);
        assert forall|i: int, j: int| 0 <= i < j < s.len() implies s[i] != s[j] by {
            assert(front[i] == s[i]);
            if j < front.len() {
                assert(front[j] == s[j]);
            } else {
                assert(front.contains(front[i]));
            }
        }
    }
}

/// Names the table of a column, by the schemas in which it is looked up.
pub fn normalize_column(column: &Column, schemas: &Vec<&DFSchema>, using: &Vec<Vec<Column>>) -> (r:
    Result<Column, Error>)
    ensures
        ({
            let expected = normalized_column(
                column@,
                schemas_view(schemas@),
                column_sets_view(using@),
            );
            &&& r is Ok <==> expected is Ok
            &&& r is Ok ==> r->Ok_0@ == expected->Ok_0
            &&& r is Err ==> r->Err_0@ == expected->Err_0
        }),
{
    outside_normalize(column, schemas, using)
}

} // verus!
