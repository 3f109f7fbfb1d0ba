//! A virtual table of the files behind the tables of a catalog: which tables a
//! query asks for, which files belong to a table, and the rows that they make.
use std::sync::Arc;

use arrow::array::{ArrayRef, StringArray, TimestampNanosecondArray, UInt64Array};
use arrow::record_batch::RecordBatch;
use arrow_schema::{ArrowError, Field, Schema};
use datafusion::datasource::listing::ListingTableUrl;
use datafusion_common::DataFusionError;
use vstd::prelude::*;
use vstd::string::*;
use vstd::utf8::encode_utf8;

use crate::error::{Error, ErrorView};
use crate::expr::Operator;
use crate::interval::outside_type;
use crate::plan::{first_out_of_bounds, projection_view};
use crate::rewrite::semantics::is_true;
use crate::scalar::{DataType, DataTypeView, Datum, ScalarValue, ScalarView, TimeUnit};
use crate::text::text_lt;

verus! {

/// Rows of the table of files, or of a projection of it, in Arrow's
/// `RecordBatch`.
#[verifier::external_body]
#[derive(Debug)]
pub struct FileBatch {
    /// The rows.
    pub batch: RecordBatch,
}

/// One value of a row.
pub enum Cell {
    Text(Seq<char>),
    Nanoseconds(i64),
    Size(u64),
}

/// The columns of a batch, each from the first row to the last.
pub uninterp spec fn batch_columns(batch: FileBatch) -> Seq<Seq<Cell>>;

/// The number of rows of a batch, which one without columns has too.
pub uninterp spec fn batch_rows(batch: FileBatch) -> nat;

/// The error that Arrow's calls return.
#[verifier::external_type_specification]
#[verifier::external_body]
pub struct ExArrowError(ArrowError);

// ---------------------------------------------------------------------------
// The schema of the table
// ---------------------------------------------------------------------------

/// A field of the table of files.
#[derive(Debug, PartialEq, Eq, Hash)]
pub struct FileField {
    pub name: String,
    pub data_type: DataType,
    pub nullable: bool,
}

/// The texts of a [`FileField`].
pub struct FileFieldView {
    pub name: Seq<char>,
    pub data_type: DataTypeView,
    pub nullable: bool,
}

impl View for FileField {
    type V = FileFieldView;

    open spec fn view(&self) -> FileFieldView {
        FileFieldView { name: self.name@, data_type: self.data_type@, nullable: self.nullable }
    }
}

impl Clone for FileField {
    fn clone(&self) -> (r: Self)
        ensures
            r@ == self@,
    {
        FileField {
            name: self.name.clone(),
            data_type: self.data_type.clone(),
            nullable: self.nullable,
        }
    }
}

/// The texts of a list of fields.
pub open spec fn file_fields_view(s: Seq<FileField>) -> Seq<FileFieldView> {
    Seq::new(s.len(), |i: int| s[i]@)
}

/// A field that is never null.
pub open spec fn required(name: Seq<char>, data_type: DataTypeView) -> FileFieldView {
    FileFieldView { name, data_type, nullable: false }
}

/// The fields of the table of files.
pub open spec fn file_table() -> Seq<FileFieldView> {
    seq![
        required("table_catalog"@, DataTypeView::Utf8),
        required("table_schema"@, DataTypeView::Utf8),
        required("table_name"@, DataTypeView::Utf8),
        required("file_path"@, DataTypeView::Utf8),
        required(
            "last_modified"@,
            DataTypeView::Timestamp(TimeUnit::Nanosecond, Some("UTC"@)),
        ),
        required("size"@, DataTypeView::UInt64),
    ]
}

fn required_field(name: &str, data_type: DataType) -> (r: FileField)
    ensures
        r@ == required(name@, data_type@),
{
    FileField { name: name.to_owned(), data_type, nullable: false }
}

/// The fields of the table of files.
fn table_schema() -> (r: Vec<FileField>)
    ensures
        file_fields_view(r@) == file_table(),
{
    let mut r: Vec<FileField> = Vec::new();
    r.push(required_field("table_catalog", DataType::Utf8));
    r.push(required_field("table_schema", DataType::Utf8));
    r.push(required_field("table_name", DataType::Utf8));
    r.push(required_field("file_path", DataType::Utf8));
    r.push(
        required_field(
            "last_modified",
            DataType::Timestamp(TimeUnit::Nanosecond, Some("UTC".to_owned())),
        ),
    );
    r.push(required_field("size", DataType::UInt64));
    assert(file_fields_view(r@) =~= file_table());
    r
}

/// The fields that a projection of a schema has, in its order, or all of them;
/// the first index that names no field fails.
pub open spec fn projected(fields: Seq<FileFieldView>, projection: Option<Seq<usize>>) -> Result<
    Seq<FileFieldView>,
    ErrorView,
> {
    match projection {
        None => Ok(fields),
        Some(indices) => match first_out_of_bounds(indices, fields.len()) {
            Some(index) => Err(
                ErrorView::ProjectionOutOfBounds { index, fields: fields.len() as usize },
            ),
            None => Ok(Seq::new(indices.len(), |i: int| fields[indices[i] as int])),
        },
    }
}

/// The fields that a projection of a schema has.
fn project_schema(fields: &Vec<FileField>, projection: &Option<Vec<usize>>) -> (r: Result<
    Vec<FileField>,
    Error,
>)
    ensures
        ({
            let expected = projected(file_fields_view(fields@), projection_view(*projection));
            &&& r is Ok <==> expected is Ok
            &&& r is Ok ==> file_fields_view(r->Ok_0@) == expected->Ok_0
            &&& r is Err ==> r->Err_0@ == expected->Err_0
        }),
{
    let ghost all = file_fields_view(fields@);
    let mut r: Vec<FileField> = Vec::new();
    match projection {
        None => {
            for i in 0..fields.len()
                invariant
                    r@.len() == i,
                    forall|j: int| 0 <= j < i ==> (#[trigger] r@[j])@ == fields@[j]@,
            {
                r.push(fields[i].clone());
            }
            assert(file_fields_view(r@) =~= all);
        },
        Some(indices) => {
            for i in 0..indices.len()
                invariant
                    all == file_fields_view(fields@),
                    projection_view(*projection) == Some(indices@),
                    r@.len() == i,
                    first_out_of_bounds(indices@.take(i as int), all.len()) is None,
                    forall|j: int| 0 <= j < i ==> (#[trigger] r@[j])@ == all[indices@[j] as int],
            {
                assert(indices@.take(i + 1).drop_last() =~= indices@.take(i as int));
                let index = indices[i];
                if index >= fields.len() {
                    proof {
                        crate::plan::lemma_out_of_bounds_prefix(indices@, i + 1, all.len());
                    }
                    return Err(Error::ProjectionOutOfBounds { index, fields: fields.len() });
                }
                r.push(fields[index].clone());
            }
            assert(indices@.take(indices@.len() as int) =~= indices@);
            assert(file_fields_view(r@) =~= Seq::new(
                indices@.len(),
                |i: int| all[indices@[i] as int],
            ));
        },
    }
    Ok(r)
}

/// The place of the first field with a name.
pub open spec fn field_index(fields: Seq<FileFieldView>, name: Seq<char>) -> Option<int>
    decreases fields.len(),
{
    if fields.len() == 0 {
        None
    } else {
        match field_index(fields.drop_last(), name) {
            Some(i) => Some(i),
            None => if fields.last().name == name {
                Some(fields.len() - 1)
            } else {
                None
            },
        }
    }
}

proof fn lemma_field_index_prefix(fields: Seq<FileFieldView>, n: int, name: Seq<char>)
    requires
        0 <= n <= fields.len(),
        field_index(fields.take(n), name) is Some,
    ensures
        field_index(fields, name) == field_index(fields.take(n), name),
    decreases fields.len() - n,
{
    if n == fields.len() {
        assert(fields.take(n) =~= fields);
    } else {
        assert(fields.take(n + 1).drop_last() =~= fields.take(n));
        lemma_field_index_prefix(fields, n + 1, name);
    }
}

/// The place of the first field with a name.
fn column_index(fields: &Vec<FileField>, column_name: &str) -> (r: Result<usize, Error>)
    ensures
        match field_index(file_fields_view(fields@), column_name@) {
            Some(i) => r matches Ok(x) && x == i,
            None => r matches Err(e) && e@ == ErrorView::NoSuchColumn(column_name@),
        },
{
    let ghost all = file_fields_view(fields@);
    let name = column_name.to_owned();
    for i in 0..fields.len()
        invariant
            all == file_fields_view(fields@),
            name@ == column_name@,
            field_index(all.take(i as int), column_name@) is None,
    {
        assert(all.take(i + 1).drop_last() =~= all.take(i as int));
        if fields[i].name == name {
            proof {
                lemma_field_index_prefix(all, i + 1, column_name@);
            }
            return Ok(i);
        }
    }
    assert(all.take(all.len() as int) =~= all);
    Err(Error::NoSuchColumn(name))
}

// ---------------------------------------------------------------------------
// What a query asks for
// ---------------------------------------------------------------------------

/// A filter over the columns of the table, with the parts of it that are looked
/// into.
#[derive(Debug, PartialEq, Eq, Hash)]
pub enum PhysicalExpr {
    BinaryExpr { left: Box<PhysicalExpr>, op: Operator, right: Box<PhysicalExpr> },
    /// The column at a place.
    Column(usize),
    Literal(ScalarValue),
    /// Every other kind of expression.
    Other,
}

/// The text that a filter says the column at a place is equal to. The column
/// may stand on either side. A filter that does not have that form says
/// nothing, and neither does one whose text is null.
pub open spec fn column_literal(column: usize, filter: PhysicalExpr) -> Option<Seq<char>> {
    match filter {
        PhysicalExpr::BinaryExpr { left, op: Operator::Eq, right } => match (*left, *right) {
            (PhysicalExpr::Column(c), PhysicalExpr::Literal(v)) => if c == column {
                text_of(v)
            } else {
                None
            },
            (PhysicalExpr::Literal(v), PhysicalExpr::Column(c)) => if c == column {
                text_of(v)
            } else {
                None
            },
            _ => None,
        },
        _ => None,
    }
}

/// The text that a value holds, where it is of one of the two types of text
/// that are read.
pub open spec fn text_of(v: ScalarValue) -> Option<Seq<char>> {
    match v {
        ScalarValue::Utf8(Some(s)) => Some(s@),
        ScalarValue::LargeUtf8(Some(s)) => Some(s@),
        _ => None,
    }
}

/// The texts of an optional text.
pub open spec fn text_view(s: Option<String>) -> Option<Seq<char>> {
    match s {
        Some(s) => Some(s@),
        None => None,
    }
}

/// The text that a filter says the column at a place is equal to.
fn literal_of_column(column: usize, filter: &PhysicalExpr) -> (r: Option<String>)
    ensures
        text_view(r) == column_literal(column, *filter),
{
    let (left, right) = match filter {
        PhysicalExpr::BinaryExpr { left, op: Operator::Eq, right } => (&**left, &**right),
        _ => return None,
    };
    let (index, literal) = match (left, right) {
        (PhysicalExpr::Column(c), PhysicalExpr::Literal(v)) => (*c, v),
        (PhysicalExpr::Literal(v), PhysicalExpr::Column(c)) => (*c, v),
        _ => return None,
    };
    if index != column {
        return None;
    }
    match literal {
        ScalarValue::Utf8(Some(s)) => Some(s.clone()),
        ScalarValue::LargeUtf8(Some(s)) => Some(s.clone()),
        _ => None,
    }
}

/// The first text that one of the filters says the column at a place is equal
/// to.
pub open spec fn first_literal(column: usize, filters: Seq<PhysicalExpr>) -> Option<Seq<char>>
    decreases filters.len(),
{
    if filters.len() == 0 {
        None
    } else {
        match first_literal(column, filters.drop_last()) {
            Some(s) => Some(s),
            None => column_literal(column, filters.last()),
        }
    }
}

proof fn lemma_first_literal_prefix(column: usize, filters: Seq<PhysicalExpr>, n: int)
    requires
        0 <= n <= filters.len(),
        first_literal(column, filters.take(n)) is Some,
    ensures
        first_literal(column, filters) == first_literal(column, filters.take(n)),
    decreases filters.len() - n,
{
    if n == filters.len() {
        assert(filters.take(n) =~= filters);
    } else {
        assert(filters.take(n + 1).drop_last() =~= filters.take(n));
        lemma_first_literal_prefix(column, filters, n + 1);
    }
}

fn find_literal(column: usize, filters: &Vec<PhysicalExpr>) -> (r: Option<String>)
    ensures
        text_view(r) == first_literal(column, filters@),
{
    let ghost all = filters@;
    for i in 0..filters.len()
        invariant
            all == filters@,
            first_literal(column, all.take(i as int)) is None,
    {
        assert(all.take(i + 1).drop_last() =~= all.take(i as int));
        let found = literal_of_column(column, &filters[i]);
        if found.is_some() {
            proof {
                lemma_first_literal_prefix(column, all, i + 1);
            }
            return found;
        }
    }
    assert(all.take(all.len() as int) =~= all);
    None
}

/// The catalog, the schema and the table that a query asks for, each where its
/// filters say.
#[derive(Debug, PartialEq, Eq, Hash)]
pub struct Scope {
    pub catalog: Option<String>,
    pub schema: Option<String>,
    pub table: Option<String>,
}

/// The texts of a [`Scope`].
pub struct ScopeView {
    pub catalog: Option<Seq<char>>,
    pub schema: Option<Seq<char>>,
    pub table: Option<Seq<char>>,
}

impl View for Scope {
    type V = ScopeView;

    open spec fn view(&self) -> ScopeView {
        ScopeView {
            catalog: text_view(self.catalog),
            schema: text_view(self.schema),
            table: text_view(self.table),
        }
    }
}

/// The place of a column of a schema that a query may filter by.
pub open spec fn place(fields: Seq<FileFieldView>, name: Seq<char>) -> Result<int, ErrorView> {
    match field_index(fields, name) {
        Some(i) => Ok(i),
        None => Err(ErrorView::NoSuchColumn(name)),
    }
}

/// What a query asks for. It fails where the schema lacks one of the columns.
pub open spec fn scope_of(fields: Seq<FileFieldView>, filters: Seq<PhysicalExpr>) -> Result<
    ScopeView,
    ErrorView,
> {
    match (
        place(fields, "table_catalog"@),
        place(fields, "table_schema"@),
        place(fields, "table_name"@),
    ) {
        (Ok(c), Ok(s), Ok(t)) => Ok(
            ScopeView {
                catalog: first_literal(c as usize, filters),
                schema: first_literal(s as usize, filters),
                table: first_literal(t as usize, filters),
            },
        ),
        (Err(e), _, _) => Err(e),
        (_, Err(e), _) => Err(e),
        (_, _, Err(e)) => Err(e),
    }
}

/// What a query with the given filters asks for.
fn scope_of_filters(fields: &Vec<FileField>, filters: &Vec<PhysicalExpr>) -> (r: Result<
    Scope,
    Error,
>)
    ensures
        match scope_of(file_fields_view(fields@), filters@) {
            Ok(scope) => r matches Ok(x) && x@ == scope,
            Err(e) => r matches Err(x) && x@ == e,
        },
{
    let catalog_column = match column_index(fields, "table_catalog") {
        Ok(i) => i,
        Err(e) => return Err(e),
    };
    let schema_column = match column_index(fields, "table_schema") {
        Ok(i) => i,
        Err(e) => return Err(e),
    };
    let table_column = match column_index(fields, "table_name") {
        Ok(i) => i,
        Err(e) => return Err(e),
    };
    Ok(
        Scope {
            catalog: find_literal(catalog_column, filters),
            schema: find_literal(schema_column, filters),
            table: find_literal(table_column, filters),
        },
    )
}

/// What is done next to answer a query: something is looked up in the catalog
/// list, or the files of some part of it are listed.
#[derive(Debug, PartialEq, Eq, Hash)]
pub enum Step {
    LookUpCatalog(String),
    LookUpSchema(String, String),
    LookUpTable(String, String, String),
    ListAll,
    ListCatalog(String),
    ListSchema(String, String),
    ListTable(String, String, String),
    /// Nothing is listed.
    Done,
}

/// The texts of a [`Step`].
pub enum StepView {
    LookUpCatalog(Seq<char>),
    LookUpSchema(Seq<char>, Seq<char>),
    LookUpTable(Seq<char>, Seq<char>, Seq<char>),
    ListAll,
    ListCatalog(Seq<char>),
    ListSchema(Seq<char>, Seq<char>),
    ListTable(Seq<char>, Seq<char>, Seq<char>),
    Done,
}

impl View for Step {
    type V = StepView;

    open spec fn view(&self) -> StepView {
        match *self {
            Step::LookUpCatalog(c) => StepView::LookUpCatalog(c@),
            Step::LookUpSchema(c, s) => StepView::LookUpSchema(c@, s@),
            Step::LookUpTable(c, s, t) => StepView::LookUpTable(c@, s@, t@),
            Step::ListAll => StepView::ListAll,
            Step::ListCatalog(c) => StepView::ListCatalog(c@),
            Step::ListSchema(c, s) => StepView::ListSchema(c@, s@),
            Step::ListTable(c, s, t) => StepView::ListTable(c@, s@, t@),
            Step::Done => StepView::Done,
        }
    }
}

/// The first step: a query that names no catalog lists all of them.
pub open spec fn first_step(scope: ScopeView) -> StepView {
    match scope.catalog {
        None => StepView::ListAll,
        Some(c) => StepView::LookUpCatalog(c),
    }
}

/// The step after a lookup. What is not found ends the query with nothing; what
/// is found is listed, unless the query names a part of it.
pub open spec fn step_after(scope: ScopeView, step: StepView, found: bool) -> StepView {
    match step {
        StepView::LookUpCatalog(c) => if !found {
            StepView::Done
        } else {
            match scope.schema {
                None => StepView::ListCatalog(c),
                Some(s) => StepView::LookUpSchema(c, s),
            }
        },
        StepView::LookUpSchema(c, s) => if !found {
            StepView::Done
        } else {
            match scope.table {
                None => StepView::ListSchema(c, s),
                Some(t) => StepView::LookUpTable(c, s, t),
            }
        },
        StepView::LookUpTable(c, s, t) => if !found {
            StepView::Done
        } else {
            StepView::ListTable(c, s, t)
        },
        _ => StepView::Done,
    }
}

impl Scope {
    /// The first step to answer a query.
    pub fn first_step(&self) -> (r: Step)
        ensures
            r@ == first_step(self@),
    {
        match &self.catalog {
            None => Step::ListAll,
            Some(c) => Step::LookUpCatalog(c.clone()),
        }
    }

    /// The step after a lookup, by whether something was found.
    pub fn next_step(&self, step: Step, found: bool) -> (r: Step)
        ensures
            r@ == step_after(self@, step@, found),
    {
        if !found {
            return Step::Done;
        }
        match step {
            Step::LookUpCatalog(c) => match &self.schema {
                None => Step::ListCatalog(c),
                Some(s) => Step::LookUpSchema(c, s.clone()),
            },
            Step::LookUpSchema(c, s) => match &self.table {
                None => Step::ListSchema(c, s),
                Some(t) => Step::LookUpTable(c, s, t.clone()),
            },
            Step::LookUpTable(c, s, t) => Step::ListTable(c, s, t),
            _ => Step::Done,
        }
    }
}

// ---------------------------------------------------------------------------
// The files of a table
// ---------------------------------------------------------------------------

/// How the files at a location are listed.
#[derive(Debug, Clone, Copy, PartialEq, Eq, Hash, Structural)]
pub enum Listing {
    /// The location does not exist yet: there are no files.
    Nothing,
    /// All objects below the location.
    Directory,
    /// The object at the location.
    File,
}

/// The text ends with another.
pub open spec fn ends_with(s: Seq<char>, end: Seq<char>) -> bool {
    s.len() >= end.len() && s.skip(s.len() - end.len()) == end
}

/// Whether a text ends with another.
fn text_ends_with(s: &str, end: &str) -> (r: bool)
    ensures
        r == ends_with(s@, end@),
{
    let n = s.unicode_len();
    let m = end.unicode_len();
    if n < m {
        return false;
    }
    let rest = s.substring_char(n - m, n);
    assert(rest@ =~= s@.skip(s@.len() - end@.len()));
    rest.to_owned() == end.to_owned()
}

/// How the files at a location are listed, by whether the location was found: a
/// location that ends with a slash is a directory.
pub fn listing(url: &str, found: bool) -> (r: Listing)
    ensures
        r == (if !found {
            Listing::Nothing
        } else if ends_with(url@, seq!['/']) {
            Listing::Directory
        } else {
            Listing::File
        }),
{
    proof {
        reveal_strlit("/");
    }
    assert("/"@ =~= seq!['/']);
    if !found {
        Listing::Nothing
    } else if text_ends_with(url, "/") {
        Listing::Directory
    } else {
        Listing::File
    }
}

/// Whether a path lies at or below a location, and matches its glob expression
/// where it has one; nothing where one of the texts cannot be read.
pub uninterp spec fn lies_below(
    url: Seq<char>,
    glob: Option<Seq<char>>,
    path: Seq<char>,
    ignore_subdirectory: bool,
) -> Option<bool>;

/// `ListingTableUrl::contains`, on the location that `ListingTableUrl::try_new`
/// makes of a URL, with the glob expression that `ListingTableUrl::with_glob`
/// gives it, and on the path that `Path::parse` makes of a text. Which paths a
/// location contains takes URL decoding and glob matching to say, and is not
/// stated further; it is a function of the four arguments.
#[verifier::external_body]
fn outside_contains(url: &str, glob: &Option<String>, path: &str, ignore_subdirectory: bool) -> (r:
    Result<bool, DataFusionError>)
    ensures
        r is Ok <==> lies_below(url@, text_view(*glob), path@, ignore_subdirectory) is Some,
        r is Ok ==> r->Ok_0 == lies_below(url@, text_view(*glob), path@, ignore_subdirectory)->0,
{
    let url = url::Url::parse(url).map_err(|e| DataFusionError::External(Box::new(e)))?;
    let mut table = ListingTableUrl::try_new(url, None)?;
    if let Some(glob) = glob {
        table = table.with_glob(glob)?;
    }
    let path = object_store::path::Path::parse(path).map_err(object_store::Error::from)?;
    Ok(table.contains(&path, ignore_subdirectory))
}

/// A file belongs to a table: it has the table's extension, and it lies at or
/// below the table's location.
pub open spec fn belongs(path: Seq<char>, extension: Seq<char>, below: bool) -> bool {
    ends_with(path, extension) && below
}

/// Whether a file belongs to a table, given whether it lies below the location
/// of the table.
pub fn keeps_file(path: &str, file_extension: &str, below: bool) -> (r: bool)
    ensures
        r == belongs(path@, file_extension@, below),
{
    let extension_match = text_ends_with(path, file_extension);
    extension_match && below
}

/// The default source of the files of a table.
#[derive(Debug)]
pub struct DefaultFileMetadataProvider;

impl DefaultFileMetadataProvider {
    /// Whether a file belongs to the table at a location.
    pub fn lists_file(
        &self,
        url: &str,
        glob: &Option<String>,
        path: &str,
        file_extension: &str,
        ignore_subdirectory: bool,
    ) -> (r: Result<bool, Error>)
        ensures
            match lies_below(url@, text_view(*glob), path@, ignore_subdirectory) {
                Some(below) => r == Ok::<bool, Error>(belongs(path@, file_extension@, below)),
                None => r == Err::<bool, Error>(Error::Location),
            },
            r == Ok::<bool, Error>(true) <==> lies_below(
                url@,
                text_view(*glob),
                path@,
                ignore_subdirectory,
            ) == Some(true) && exists|front: Seq<char>| path@ == #[trigger] (front + file_extension@),
    {
        proof {
            endings_leave_a_front(path@, file_extension@);
        }
        match outside_contains(url, glob, path, ignore_subdirectory) {
            Ok(below) => Ok(keeps_file(path, file_extension, below)),
            Err(_) => Err(Error::Location),
        }
    }
}

// ---------------------------------------------------------------------------
// The rows of the table
// ---------------------------------------------------------------------------

/// What an object store tells of a file.
#[derive(Debug, PartialEq, Eq, Hash)]
pub struct FileMeta {
    /// The path of the file in its store.
    pub location: String,
    /// When the file was modified: the seconds since the epoch, rounded down,
    /// and the nanoseconds since that second.
    pub modified_seconds: i64,
    pub modified_nanos: u32,
    /// The size of the file in bytes.
    pub size: u64,
}

/// A time as nanoseconds since the epoch, where they can tell it. Before the epoch
/// they are counted from the end of the second, and that end must be one that they
/// can tell too: within a leap second, which has up to twice as many, it may not
/// be.
pub open spec fn nanoseconds(seconds: i64, nanos: u32) -> Option<i64> {
    let (from, more): (int, int) = if seconds < 0 {
        (seconds + 1, nanos - 1_000_000_000)
    } else {
        (seconds as int, nanos as int)
    };
    let start = from * 1_000_000_000;
    let total = start + more;
    if i64::MIN <= start <= i64::MAX && i64::MIN <= total <= i64::MAX {
        Some(total as i64)
    } else {
        None
    }
}

/// A time as nanoseconds since the epoch, where they can tell it.
pub fn timestamp_nanos_opt(seconds: i64, nanos: u32) -> (r: Option<i64>)
    ensures
        r == nanoseconds(seconds, nanos),
        r matches Some(t) ==> t == seconds * 1_000_000_000 + nanos,
        nanos < 1_000_000_000 ==> (r is Some <==> i64::MIN <= seconds * 1_000_000_000 + nanos
            <= i64::MAX),
{
    let (from, more): (i64, i64) = if seconds < 0 {
        (seconds + 1, (nanos as i64) - 1_000_000_000)
    } else {
        (seconds, nanos as i64)
    };
    match from.checked_mul(1_000_000_000) {
        Some(start) => start.checked_add(more),
        None => None,
    }
}

/// A row of the table of files. A time that nanoseconds cannot tell is missing.
pub struct FileRow {
    pub catalog: Seq<char>,
    pub schema: Seq<char>,
    pub table: Seq<char>,
    pub path: Seq<char>,
    pub last_modified: Option<i64>,
    pub size: u64,
}

/// The row of a file of a table. Its path is that of the file behind that of the
/// store.
pub open spec fn file_row(
    catalog: Seq<char>,
    schema: Seq<char>,
    table: Seq<char>,
    store_url: Seq<char>,
    meta: FileMeta,
) -> FileRow {
    FileRow {
        catalog,
        schema,
        table,
        path: store_url + meta.location@,
        last_modified: nanoseconds(meta.modified_seconds, meta.modified_nanos),
        size: meta.size,
    }
}

/// The columns of some rows, each of which has a time.
pub open spec fn columns_of(rows: Seq<FileRow>) -> Seq<Seq<Cell>> {
    seq![
        Seq::new(rows.len(), |i: int| Cell::Text(rows[i].catalog)),
        Seq::new(rows.len(), |i: int| Cell::Text(rows[i].schema)),
        Seq::new(rows.len(), |i: int| Cell::Text(rows[i].table)),
        Seq::new(rows.len(), |i: int| Cell::Text(rows[i].path)),
        Seq::new(rows.len(), |i: int| Cell::Nanoseconds(rows[i].last_modified->0)),
        Seq::new(rows.len(), |i: int| Cell::Size(rows[i].size)),
    ]
}

/// The bytes of some texts.
pub open spec fn byte_count(texts: Seq<Seq<char>>) -> nat
    decreases texts.len(),
{
    if texts.len() == 0 {
        0
    } else {
        byte_count(texts.drop_last()) + encode_utf8(texts.last()).len()
    }
}

/// Collects the rows of the files of one table.
#[derive(Debug)]
pub struct FileMetadataBuilder {
    catalog_names: Vec<String>,
    schema_names: Vec<String>,
    table_names: Vec<String>,
    file_paths: Vec<String>,
    last_modified: Vec<Option<i64>>,
    size: Vec<u64>,
}

impl View for FileMetadataBuilder {
    type V = Seq<FileRow>;

    closed spec fn view(&self) -> Seq<FileRow> {
        Seq::new(
            self.size@.len(),
            |i: int|
                FileRow {
                    catalog: self.catalog_names@[i]@,
                    schema: self.schema_names@[i]@,
                    table: self.table_names@[i]@,
                    path: self.file_paths@[i]@,
                    last_modified: self.last_modified@[i],
                    size: self.size@[i],
                },
        )
    }
}

/// Each column of text of some rows has at most as many bytes as Arrow's text
/// columns can address.
pub open spec fn fits(rows: Seq<FileRow>) -> bool {
    &&& byte_count(Seq::new(rows.len(), |i: int| rows[i].catalog)) <= i32::MAX
    &&& byte_count(Seq::new(rows.len(), |i: int| rows[i].schema)) <= i32::MAX
    &&& byte_count(Seq::new(rows.len(), |i: int| rows[i].table)) <= i32::MAX
    &&& byte_count(Seq::new(rows.len(), |i: int| rows[i].path)) <= i32::MAX
}

/// Every row has a time.
pub open spec fn all_timed(rows: Seq<FileRow>) -> bool {
    forall|i: int| 0 <= i < rows.len() ==> (#[trigger] rows[i]).last_modified is Some
}

/// `RecordBatch::try_new`, on Arrow arrays of the values of each column: a batch
/// of the columns. With the fields of the table of files it fails exactly where
/// a time is missing, for none of the fields can be null.
#[verifier::external_body]
fn outside_try_new(fields: &Vec<FileField>, rows: &FileMetadataBuilder) -> (r: Result<
    FileBatch,
    ArrowError,
>)
    requires
        file_fields_view(fields@) == file_table(),
        fits(rows@),
    ensures
        r is Ok <==> all_timed(rows@),
        r is Ok ==> batch_columns(r->Ok_0) == columns_of(rows@),
        r is Ok ==> batch_rows(r->Ok_0) == rows@.len(),
{
    let text = |v: &Vec<String>| -> ArrayRef { Arc::new(StringArray::from_iter_values(v)) };
    let columns = vec![
        text(&rows.catalog_names),
        text(&rows.schema_names),
        text(&rows.table_names),
        text(&rows.file_paths),
        Arc::new(TimestampNanosecondArray::from(rows.last_modified.clone())
            .with_data_type(outside_type(&fields[4].data_type))),
        Arc::new(UInt64Array::from(rows.size.clone())),
    ];
    let field = |f: &FileField| Field::new(&f.name, outside_type(&f.data_type), f.nullable);
    let fields: Vec<Field> = fields.iter().map(field).collect();
    Ok(FileBatch { batch: RecordBatch::try_new(Arc::new(Schema::new(fields)), columns)? })
}

/// Every index names a column.
pub open spec fn in_bounds(indices: Seq<usize>, columns: nat) -> bool {
    forall|i: int| 0 <= i < indices.len() ==> (#[trigger] indices[i]) < columns
}

/// `RecordBatch::project`: the columns that the indices name, in their order. It
/// fails where an index names no column.
#[verifier::external_body]
fn outside_project(batch: &FileBatch, indices: &Vec<usize>) -> (r: Result<FileBatch, ArrowError>)
    ensures
        r is Ok <==> in_bounds(indices@, batch_columns(*batch).len()),
        r is Ok ==> batch_columns(r->Ok_0) == Seq::new(
            indices@.len(),
            |i: int| batch_columns(*batch)[indices@[i] as int],
        ),
        r is Ok ==> batch_rows(r->Ok_0) == batch_rows(*batch),
{
    Ok(FileBatch { batch: batch.batch.project(indices)? })
}

/// Whether some texts have at most as many bytes as a text column can address.
fn text_fits(texts: &Vec<String>) -> (r: bool)
    ensures
        r == (byte_count(crate::error::strings_view(texts@)) <= i32::MAX),
{
    let ghost all = crate::error::strings_view(texts@);
    let limit: usize = i32::MAX as usize;
    let mut total: usize = 0;
    for i in 0..texts.len()
        invariant
            all == crate::error::strings_view(texts@),
            limit == i32::MAX,
            total == byte_count(all.take(i as int)),
            total <= limit,
    {
        assert(all.take(i + 1).drop_last() =~= all.take(i as int));
        let bytes = texts[i].as_str().as_bytes().len();
        if bytes > limit - total {
            proof {
                lemma_byte_count_prefix(all, i + 1);
            }
            return false;
        }
        total = total + bytes;
    }
    assert(all.take(all.len() as int) =~= all);
    true
}

proof fn lemma_byte_count_prefix(texts: Seq<Seq<char>>, n: int)
    requires
        0 <= n <= texts.len(),
    ensures
        byte_count(texts.take(n)) <= byte_count(texts),
    decreases texts.len() - n,
{
    if n == texts.len() {
        assert(texts.take(n) =~= texts);
    } else {
        assert(texts.take(n + 1).drop_last() =~= texts.take(n));
        lemma_byte_count_prefix(texts, n + 1);
    }
}

impl FileMetadataBuilder {
    /// The columns are of one length.
    #[verifier::type_invariant]
    closed spec fn aligned(self) -> bool {
        &&& self.catalog_names@.len() == self.size@.len()
        &&& self.schema_names@.len() == self.size@.len()
        &&& self.table_names@.len() == self.size@.len()
        &&& self.file_paths@.len() == self.size@.len()
        &&& self.last_modified@.len() == self.size@.len()
    }

    /// No rows.
    pub fn new() -> (r: Self)
        ensures
            r@ == Seq::<FileRow>::empty(),
    {
        let r = FileMetadataBuilder {
            catalog_names: Vec::new(),
            schema_names: Vec::new(),
            table_names: Vec::new(),
            file_paths: Vec::new(),
            last_modified: Vec::new(),
            size: Vec::new(),
        };
        assert(r@ =~= Seq::empty());
        r
    }

    /// Adds the row of a file of a table.
    pub fn append(
        self,
        catalog_name: &str,
        schema_name: &str,
        table_name: &str,
        store_url: &str,
        meta: &FileMeta,
    ) -> (r: Self)
        ensures
            r@ == self@.push(
                file_row(catalog_name@, schema_name@, table_name@, store_url@, *meta),
            ),
            r@.last().last_modified matches Some(t) ==> t == meta.modified_seconds * 1_000_000_000
                + meta.modified_nanos,
    {
        let ghost before = self@;
        proof {
            use_type_invariant(&self);
        }
        let mut catalog_names = self.catalog_names;
        let mut schema_names = self.schema_names;
        let mut table_names = self.table_names;
        let mut file_paths = self.file_paths;
        let mut last_modified = self.last_modified;
        let mut size = self.size;
        catalog_names.push(catalog_name.to_owned());
        schema_names.push(schema_name.to_owned());
        table_names.push(table_name.to_owned());
        file_paths.push(store_url.to_owned().concat(meta.location.as_str()));
        last_modified.push(timestamp_nanos_opt(meta.modified_seconds, meta.modified_nanos));
        size.push(meta.size);
        let r = FileMetadataBuilder {
            catalog_names,
            schema_names,
            table_names,
            file_paths,
            last_modified,
            size,
        };
        assert(r@ =~= before.push(
            file_row(catalog_name@, schema_name@, table_name@, store_url@, *meta),
        ));
        r
    }

    /// Whether the rows fit in one batch.
    pub fn fits(&self) -> (r: bool)
        ensures
            r == fits(self@),
    {
        proof {
            use_type_invariant(self);
            let rows = self@;
            assert(Seq::new(rows.len(), |i: int| rows[i].catalog) =~= crate::error::strings_view(
                self.catalog_names@,
            ));
            assert(Seq::new(rows.len(), |i: int| rows[i].schema) =~= crate::error::strings_view(
                self.schema_names@,
            ));
            assert(Seq::new(rows.len(), |i: int| rows[i].table) =~= crate::error::strings_view(
                self.table_names@,
            ));
            assert(Seq::new(rows.len(), |i: int| rows[i].path) =~= crate::error::strings_view(
                self.file_paths@,
            ));
        }
        text_fits(&self.catalog_names) && text_fits(&self.schema_names) && text_fits(
            &self.table_names,
        ) && text_fits(&self.file_paths)
    }

    /// The batch of the rows. It fails exactly where nanoseconds cannot tell the
    /// time of one of them.
    pub fn finish(self) -> (r: Result<FileBatch, Error>)
        requires
            fits(self@),
        ensures
            all_timed(self@) ==> r is Ok && batch_columns(r->Ok_0) == columns_of(self@)
                && batch_rows(r->Ok_0) == self@.len(),
            !all_timed(self@) ==> r == Err::<FileBatch, Error>(Error::TimestampOutOfRange),
    {
        match outside_try_new(&table_schema(), &self) {
            Ok(batch) => Ok(batch),
            Err(_) => Err(Error::TimestampOutOfRange),
        }
    }
}

/// A batch is another one, or the columns of it that a projection names.
pub open spec fn is_projection(
    batch: FileBatch,
    of: FileBatch,
    projection: Option<Seq<usize>>,
) -> bool {
    match projection {
        None => batch == of,
        Some(indices) => batch_rows(batch) == batch_rows(of) && batch_columns(batch) == Seq::new(
            indices.len(),
            |i: int| batch_columns(of)[indices[i] as int],
        ),
    }
}

/// Projects each batch, or passes them through.
fn project_each(batches: Vec<FileBatch>, projection: &Option<Vec<usize>>) -> (r: Vec<
    Result<FileBatch, Error>,
>)
    ensures
        r@.len() == batches@.len(),
        forall|i: int|
            0 <= i < r@.len() ==> match #[trigger] r@[i] {
                Ok(batch) => is_projection(batch, batches@[i], projection_view(*projection)),
                Err(e) => e == Error::BatchProjection,
            },
        forall|i: int|
            0 <= i < r@.len() ==> ((#[trigger] r@[i]) is Ok <==> (projection_view(
                *projection,
            ) matches Some(indices) ==> in_bounds(indices, batch_columns(batches@[i]).len()))),
{
    let ghost all = batches@;
    let mut rest = batches;
    let mut r: Vec<Result<FileBatch, Error>> = Vec::new();
    while rest.len() > 0
        invariant
            rest@.len() + r@.len() == all.len(),
            forall|i: int| 0 <= i < rest@.len() ==> rest@[i] == all[r@.len() + i],
            forall|i: int|
                0 <= i < r@.len() ==> match #[trigger] r@[i] {
                    Ok(batch) => is_projection(batch, all[i], projection_view(*projection)),
                    Err(e) => e == Error::BatchProjection,
                },
            forall|i: int|
                0 <= i < r@.len() ==> ((#[trigger] r@[i]) is Ok <==> (projection_view(
                    *projection,
                ) matches Some(indices) ==> in_bounds(indices, batch_columns(all[i]).len()))),
        decreases rest@.len(),
    {
        let batch = rest.remove(0);
        assert(batch == all[r@.len() as int]);
        let projected = match projection {
            None => Ok(batch),
            Some(indices) => match outside_project(&batch, indices) {
                Ok(batch) => Ok(batch),
                Err(_) => Err(Error::BatchProjection),
            },
        };
        r.push(projected);
    }
    r
}

/// The items of all the results, in order, or the first error.
pub open spec fn gathered<T, E>(s: Seq<Result<Vec<T>, E>>) -> Result<Seq<T>, E>
    decreases s.len(),
{
    if s.len() == 0 {
        Ok(Seq::empty())
    } else {
        match gathered(s.drop_last()) {
            Ok(front) => match s.last() {
                Ok(items) => Ok(front + items@),
                Err(e) => Err(e),
            },
            Err(e) => Err(e),
        }
    }
}

proof fn lemma_gathered_prefix<T, E>(s: Seq<Result<Vec<T>, E>>, n: int)
    requires
        0 <= n <= s.len(),
        gathered(s.take(n)) is Err,
    ensures
        gathered(s) == gathered(s.take(n)),
    decreases s.len() - n,
{
    if n == s.len() {
        assert(s.take(n) =~= s);
    } else {
        assert(s.take(n + 1).drop_last() =~= s.take(n));
        lemma_gathered_prefix(s, n + 1);
    }
}

/// Puts the results of several tasks together: the items of all of them, in
/// order, or the first error.
pub fn gather<T, E>(results: Vec<Result<Vec<T>, E>>) -> (r: Result<Vec<T>, E>)
    ensures
        match gathered(results@) {
            Ok(items) => r matches Ok(v) && v@ == items,
            Err(e) => r == Err::<Vec<T>, E>(e),
        },
{
    let ghost all = results@;
    let mut rest = results;
    let mut r: Vec<T> = Vec::new();
    let ghost mut n: int = 0;
    assert(all.take(0) =~= Seq::empty());
    while rest.len() > 0
        invariant
            all == results@,
            0 <= n <= all.len(),
            rest@.len() == all.len() - n,
            forall|i: int| 0 <= i < rest@.len() ==> rest@[i] == all[n + i],
            gathered(all.take(n)) == Ok::<Seq<T>, E>(r@),
        decreases rest@.len(),
    {
        assert(all.take(n + 1).drop_last() =~= all.take(n));
        let result = rest.remove(0);
        assert(result == all[n]);
        match result {
            Ok(items) => {
                let mut items = items;
                r.append(&mut items);
            },
            Err(e) => {
                proof {
                    lemma_gathered_prefix(all, n + 1);
                }
                return Err(e);
            },
        }
        proof {
            n = n + 1;
        }
    }
    assert(all.take(n) =~= all);
    Ok(r)
}

/// The texts of some filters, one behind the other.
pub open spec fn listed(filters: Seq<Seq<char>>) -> Seq<char>
    decreases filters.len(),
{
    if filters.len() == 0 {
        Seq::empty()
    } else if filters.len() == 1 {
        filters[0]
    } else {
        listed(filters.drop_last()) + ", "@ + filters.last()
    }
}

/// A scan of the table of files as it displays itself: its filters, and its
/// limit where it has one.
fn describe_scan(filters: &Vec<String>, limit: &Option<String>) -> (r: String)
    ensures
        r@ == "FileMetadataExec: filters=["@ + listed(crate::error::strings_view(filters@)) + "]"@ + (
        match text_view(*limit) {
            Some(n) => ", limit="@ + n,
            None => Seq::empty(),
        }),
{
    let ghost all = crate::error::strings_view(filters@);
    let ghost start = "FileMetadataExec: filters=["@;
    let mut r = "FileMetadataExec: filters=[".to_owned();
    assert(r@ =~= start + listed(all.take(0)));
    for i in 0..filters.len()
        invariant
            all == crate::error::strings_view(filters@),
            start == "FileMetadataExec: filters=["@,
            r@ == start + listed(all.take(i as int)),
    {
        assert(all.take(i + 1).drop_last() =~= all.take(i as int));
        if i > 0 {
            r.append(", ");
        }
        r.append(filters[i].as_str());
        assert(r@ =~= start + listed(all.take(i + 1)));
    }
    assert(all.take(all.len() as int) =~= all);
    r.append("]");
    if let Some(limit) = limit {
        r.append(", limit=");
        r.append(limit.as_str());
    }
    assert(r@ =~= "FileMetadataExec: filters=["@ + listed(all) + "]"@ + (match text_view(*limit) {
        Some(n) => ", limit="@ + n,
        None => Seq::empty(),
    }));
    r
}

// ---------------------------------------------------------------------------
// The table and its scans
// ---------------------------------------------------------------------------

/// How far a table applies a filter that a query hands to it.
#[derive(Debug, Clone, Copy, PartialEq, Eq, Hash, Structural)]
pub enum TableProviderFilterPushDown {
    /// The table does not use the filter.
    Unsupported,
    /// The table uses the filter to read less; the query applies it again.
    Inexact,
    /// The table hands out only rows for which the filter holds.
    Exact,
}

/// A virtual table of files, inspired by the information schema.
#[derive(Debug)]
pub struct FileMetadata {
    table_schema: Vec<FileField>,
}

impl View for FileMetadata {
    type V = Seq<FileFieldView>;

    closed spec fn view(&self) -> Seq<FileFieldView> {
        file_fields_view(self.table_schema@)
    }
}

impl FileMetadata {
    /// The table, with its fields.
    pub fn new() -> (r: Self)
        ensures
            r@ == file_table(),
    {
        FileMetadata { table_schema: table_schema() }
    }

    /// The fields of the table.
    pub fn schema(&self) -> (r: &Vec<FileField>)
        ensures
            file_fields_view(r@) == self@,
    {
        &self.table_schema
    }

    /// A scan of the table. It fails where the projection names no field.
    pub fn scan(
        &self,
        projection: Option<Vec<usize>>,
        filters: Vec<PhysicalExpr>,
        limit: Option<usize>,
    ) -> (r: Result<FileMetadataExec, Error>)
        ensures
            match projected(self@, projection_view(projection)) {
                Ok(fields) => r matches Ok(x) && x@ == (ScanView {
                    table: self@,
                    fields,
                    projection: projection_view(projection),
                    filters: filters@,
                    limit,
                }),
                Err(e) => r matches Err(x) && x@ == e,
            },
    {
        let table_schema = match project_schema(&self.table_schema, &None) {
            Ok(fields) => fields,
            Err(e) => return Err(e),
        };
        FileMetadataExec::try_new(table_schema, projection, filters, limit)
    }

    /// How far the table applies each of some filters.
    pub fn supports_filters_pushdown(&self, filters: usize) -> (r: Vec<TableProviderFilterPushDown>)
        ensures
            r@ == Seq::new(filters as nat, |i: int| TableProviderFilterPushDown::Inexact),
    {
        let mut r: Vec<TableProviderFilterPushDown> = Vec::new();
        for i in 0..filters
            invariant
                r@.len() == i,
                forall|j: int| 0 <= j < i ==> r@[j] == TableProviderFilterPushDown::Inexact,
        {
            r.push(TableProviderFilterPushDown::Inexact);
        }
        r
    }
}

/// The parts of a [`FileMetadataExec`].
pub struct ScanView {
    /// The fields of the table.
    pub table: Seq<FileFieldView>,
    /// The fields that the scan outputs.
    pub fields: Seq<FileFieldView>,
    pub projection: Option<Seq<usize>>,
    pub filters: Seq<PhysicalExpr>,
    pub limit: Option<usize>,
}

/// A scan of the table of files.
#[derive(Debug)]
pub struct FileMetadataExec {
    table_schema: Vec<FileField>,
    projected_schema: Vec<FileField>,
    projection: Option<Vec<usize>>,
    filters: Vec<PhysicalExpr>,
    limit: Option<usize>,
}

impl View for FileMetadataExec {
    type V = ScanView;

    closed spec fn view(&self) -> ScanView {
        ScanView {
            table: file_fields_view(self.table_schema@),
            fields: file_fields_view(self.projected_schema@),
            projection: projection_view(self.projection),
            filters: self.filters@,
            limit: self.limit,
        }
    }
}

impl FileMetadataExec {
    /// A scan of a table of the given fields. It fails where the projection
    /// names no field.
    pub fn try_new(
        table_schema: Vec<FileField>,
        projection: Option<Vec<usize>>,
        filters: Vec<PhysicalExpr>,
        limit: Option<usize>,
    ) -> (r: Result<Self, Error>)
        ensures
            match projected(file_fields_view(table_schema@), projection_view(projection)) {
                Ok(fields) => r matches Ok(x) && x@ == (ScanView {
                    table: file_fields_view(table_schema@),
                    fields,
                    projection: projection_view(projection),
                    filters: filters@,
                    limit,
                }),
                Err(e) => r matches Err(x) && x@ == e,
            },
    {
        let projected_schema = match project_schema(&table_schema, &projection) {
            Ok(fields) => fields,
            Err(e) => return Err(e),
        };
        Ok(FileMetadataExec { table_schema, projected_schema, projection, filters, limit })
    }

    /// The name of the operator.
    pub fn name(&self) -> (r: &'static str)
        ensures
            r@ == "FileMetadataExec"@,
    {
        "FileMetadataExec"
    }

    /// The fields that the scan outputs.
    pub fn schema(&self) -> (r: &Vec<FileField>)
        ensures
            file_fields_view(r@) == self@.fields,
    {
        &self.projected_schema
    }

    /// The number of rows after which the scan stops.
    pub fn limit(&self) -> (r: Option<usize>)
        ensures
            r == self@.limit,
    {
        self.limit
    }

    /// The place of the first field of the table with a name.
    pub fn get_column_index(&self, column_name: &str) -> (r: Result<usize, Error>)
        ensures
            match place(self@.table, column_name@) {
                Ok(i) => r matches Ok(x) && x == i,
                Err(e) => r matches Err(x) && x@ == e,
            },
    {
        column_index(&self.table_schema, column_name)
    }

    /// Gets the text that a filter says the column at a place is equal to.
    pub fn get_column_literal(column: usize, filter: &PhysicalExpr) -> (r: Option<String>)
        ensures
            text_view(r) == column_literal(column, *filter),
    {
        literal_of_column(column, filter)
    }

    /// What the filters of the scan ask for.
    pub fn requested_scope(&self) -> (r: Result<Scope, Error>)
        ensures
            match scope_of(self@.table, self@.filters) {
                Ok(scope) => r matches Ok(x) && x@ == scope,
                Err(e) => r matches Err(x) && x@ == e,
            },
    {
        scope_of_filters(&self.table_schema, &self.filters)
    }

    /// Projects each batch of the table to the fields that the scan outputs.
    pub fn project_batches(&self, batches: Vec<FileBatch>) -> (r: Vec<Result<FileBatch, Error>>)
        ensures
            r@.len() == batches@.len(),
            forall|i: int|
                0 <= i < r@.len() ==> match #[trigger] r@[i] {
                    Ok(batch) => is_projection(batch, batches@[i], self@.projection),
                    Err(e) => e == Error::BatchProjection,
                },
            forall|i: int|
                0 <= i < r@.len() ==> ((#[trigger] r@[i]) is Ok <==> (
                self@.projection matches Some(indices) ==> in_bounds(
                    indices,
                    batch_columns(batches@[i]).len(),
                ))),
    {
        project_each(batches, &self.projection)
    }

    /// The scan as it displays itself, given its filters and its limit as they
    /// display themselves.
    pub fn display(filters: &Vec<String>, limit: &Option<String>) -> (r: String)
        ensures
            r@ == "FileMetadataExec: filters=["@ + listed(crate::error::strings_view(filters@))
                + "]"@ + (match text_view(*limit) {
                Some(n) => ", limit="@ + n,
                None => Seq::empty(),
            }),
    {
        describe_scan(filters, limit)
    }
}

// ---------------------------------------------------------------------------
// Laws
// ---------------------------------------------------------------------------

/// The batches of the table that a scan projects have the fields that the scan
/// outputs: a projection that the scan was made with names columns that every
/// batch of the table has.
pub proof fn scans_output_their_fields(projection: Option<Seq<usize>>, rows: Seq<FileRow>)
    requires
        projected(file_table(), projection) is Ok,
    ensures
        projection matches Some(indices) ==> in_bounds(indices, columns_of(rows).len())
            && projected(file_table(), projection)->Ok_0.len() == indices.len(),
{
    if let Some(indices) = projection {
        lemma_in_bounds(indices, file_table().len());
    }
}

proof fn lemma_in_bounds(indices: Seq<usize>, fields: nat)
    requires
        first_out_of_bounds(indices, fields) is None,
    ensures
        in_bounds(indices, fields),
    decreases indices.len(),
{
    if indices.len() > 0 {
        let front = indices.drop_last();
        lemma_in_bounds(front, fields);
        assert forall|i: int| 0 <= i < indices.len() implies (#[trigger] indices[i]) < fields by {
            if i < front.len() {
                assert(front[i] == indices[i]);
            }
        }
    }
}

/// A filter holds of a row of which the value of each column is known: an
/// equality of a column with a text holds where the column has that text. What
/// another filter says is not known.
pub open spec fn may_hold(filter: PhysicalExpr, row: spec_fn(usize) -> Seq<char>) -> bool {
    forall|column: usize| #[trigger]
        column_literal(column, filter) matches Some(text) ==> row(column) == text
}

/// A query that asks for one catalog, schema or table asks for those of every
/// row that its filters may let through: no row is lost by listing no others.
pub proof fn scope_loses_no_row(
    fields: Seq<FileFieldView>,
    filters: Seq<PhysicalExpr>,
    row: spec_fn(usize) -> Seq<char>,
)
    requires
        scope_of(fields, filters) is Ok,
        forall|i: int| 0 <= i < filters.len() ==> may_hold(#[trigger] filters[i], row),
    ensures
        ({
            let scope = scope_of(fields, filters)->Ok_0;
            let at = |name: Seq<char>| row(field_index(fields, name)->0 as usize);
            &&& scope.catalog is Some ==> at("table_catalog"@) == scope.catalog->0
            &&& scope.schema is Some ==> at("table_schema"@) == scope.schema->0
            &&& scope.table is Some ==> at("table_name"@) == scope.table->0
        }),
{
    lemma_first_literal_holds(field_index(fields, "table_catalog"@)->0 as usize, filters, row);
    lemma_first_literal_holds(field_index(fields, "table_schema"@)->0 as usize, filters, row);
    lemma_first_literal_holds(field_index(fields, "table_name"@)->0 as usize, filters, row);
}

proof fn lemma_first_literal_holds(
    column: usize,
    filters: Seq<PhysicalExpr>,
    row: spec_fn(usize) -> Seq<char>,
)
    requires
        forall|i: int| 0 <= i < filters.len() ==> may_hold(#[trigger] filters[i], row),
    ensures
        first_literal(column, filters) matches Some(text) ==> row(column) == text,
    decreases filters.len(),
{
    if filters.len() > 0 {
        let front = filters.drop_last();
        assert forall|i: int| 0 <= i < front.len() implies may_hold(#[trigger] front[i], row) by {
            assert(front[i] == filters[i]);
        }
        lemma_first_literal_holds(column, front, row);
        assert(may_hold(filters[filters.len() - 1], row));
        if column_literal(column, filters.last()) is Some {
            assert(column_literal(column, filters.last()) is Some);
        }
    }
}

/// The part of the catalog list that a step lists: all that is not named by it.
pub open spec fn lists(
    step: StepView,
    catalog: Seq<char>,
    schema: Seq<char>,
    table: Seq<char>,
) -> bool {
    match step {
        StepView::ListAll => true,
        StepView::ListCatalog(c) => c == catalog,
        StepView::ListSchema(c, s) => c == catalog && s == schema,
        StepView::ListTable(c, s, t) => c == catalog && s == schema && t == table,
        _ => false,
    }
}

/// The last step of a query whose lookups have the given answers.
pub open spec fn last_step(scope: ScopeView, catalog: bool, schema: bool, table: bool) -> StepView {
    let first = first_step(scope);
    if first is ListAll {
        first
    } else {
        let second = step_after(scope, first, catalog);
        if second is LookUpSchema {
            let third = step_after(scope, second, schema);
            if third is LookUpTable {
                step_after(scope, third, table)
            } else {
                third
            }
        } else {
            second
        }
    }
}

/// A query ends by listing exactly the tables that it may ask for, as far as its
/// names go from the catalog down: a table is listed where the catalog is the
/// one asked for, and the schema where a catalog is named too, and the table
/// where both are. Where something named is not there, nothing is listed.
pub proof fn steps_list_what_is_asked(
    scope: ScopeView,
    found_catalog: bool,
    found_schema: bool,
    found_table: bool,
    catalog: Seq<char>,
    schema: Seq<char>,
    table: Seq<char>,
)
    ensures
        ({
            let named_schema = scope.catalog is Some && scope.schema is Some;
            let named_table = named_schema && scope.table is Some;
            lists(last_step(scope, found_catalog, found_schema, found_table), catalog, schema, table)
                <==> {
                &&& scope.catalog is Some ==> found_catalog && scope.catalog->0 == catalog
                &&& named_schema ==> found_schema && scope.schema->0 == schema
                &&& named_table ==> found_table && scope.table->0 == table
            }
        }),
{
}

/// A table of a catalog list, with a row for each of its files.
pub struct ListedTable {
    pub catalog: Seq<char>,
    pub schema: Seq<char>,
    pub table: Seq<char>,
    pub rows: Seq<FileRow>,
}

/// The rows of each table tell the names under which the table is listed.
pub open spec fn rows_tell_tables(tables: Seq<ListedTable>) -> bool {
    forall|i: int, k: int|
        0 <= i < tables.len() && 0 <= k < tables[i].rows.len() ==> {
            let row = #[trigger] tables[i].rows[k];
            row.catalog == tables[i].catalog && row.schema == tables[i].schema && row.table
                == tables[i].table
        }
}

/// The rows that a step lists, table by table.
pub open spec fn listed_rows(step: StepView, tables: Seq<ListedTable>) -> Seq<FileRow>
    decreases tables.len(),
{
    if tables.len() == 0 {
        Seq::empty()
    } else {
        let last = tables.last();
        listed_rows(step, tables.drop_last()) + if lists(
            step,
            last.catalog,
            last.schema,
            last.table,
        ) {
            last.rows
        } else {
            Seq::empty()
        }
    }
}

/// The text that a row has in one of the columns that hold text.
pub open spec fn row_text(row: FileRow, column: usize) -> Seq<char> {
    if column == 0 {
        row.catalog
    } else if column == 1 {
        row.schema
    } else if column == 2 {
        row.table
    } else {
        row.path
    }
}

/// A filter may let a row through: where it says that a column of text is equal
/// to a text, the row has that text there. What another filter says is not
/// known.
pub open spec fn may_let_through(filter: PhysicalExpr, row: FileRow) -> bool {
    forall|column: usize|
        column < 4 ==> (#[trigger] column_literal(column, filter) matches Some(text) ==> row_text(
            row,
            column,
        ) == text)
}

/// A lookup finds what a listed table is in.
pub open spec fn lookups_find_listed(
    scope: ScopeView,
    tables: Seq<ListedTable>,
    found_catalog: bool,
    found_schema: bool,
    found_table: bool,
) -> bool {
    forall|i: int|
        0 <= i < tables.len() ==> {
            let t = #[trigger] tables[i];
            let in_catalog = scope.catalog == Some(t.catalog);
            let in_schema = in_catalog && scope.schema == Some(t.schema);
            let in_table = in_schema && scope.table == Some(t.table);
            &&& in_catalog ==> found_catalog
            &&& in_schema ==> found_schema
            &&& in_table ==> found_table
        }
}

/// The first field with a name is found at its place.
proof fn lemma_field_index_at(fields: Seq<FileFieldView>, name: Seq<char>, i: int)
    requires
        0 <= i < fields.len(),
        fields[i].name == name,
        forall|j: int| 0 <= j < i ==> (#[trigger] fields[j]).name != name,
    ensures
        field_index(fields, name) == Some(i),
    decreases fields.len(),
{
    let front = fields.drop_last();
    if i < front.len() {
        lemma_field_index_at(front, name, i);
    } else {
        lemma_field_index_none(front, name);
    }
}

proof fn lemma_field_index_none(fields: Seq<FileFieldView>, name: Seq<char>)
    requires
        forall|j: int| 0 <= j < fields.len() ==> (#[trigger] fields[j]).name != name,
    ensures
        field_index(fields, name) is None,
    decreases fields.len(),
{
    if fields.len() > 0 {
        let front = fields.drop_last();
        assert forall|j: int| 0 <= j < front.len() implies (#[trigger] front[j]).name != name by {
            assert(front[j] == fields[j]);
        }
        lemma_field_index_none(front, name);
        assert(fields[fields.len() - 1].name != name);
    }
}

/// What the filters of a query say of the names of a table is what the query
/// asks for.
pub proof fn filters_set_scope(filters: Seq<PhysicalExpr>)
    ensures
        scope_of(file_table(), filters) == Ok::<ScopeView, ErrorView>(
            ScopeView {
                catalog: first_literal(0, filters),
                schema: first_literal(1, filters),
                table: first_literal(2, filters),
            },
        ),
{
    reveal_strlit("table_catalog");
    reveal_strlit("table_schema");
    reveal_strlit("table_name");
    let fields = file_table();
    assert("table_catalog"@.len() == 13 && "table_schema"@.len() == 12 && "table_name"@.len()
        == 10);
    lemma_field_index_at(fields, "table_catalog"@, 0);
    lemma_field_index_at(fields, "table_schema"@, 1);
    lemma_field_index_at(fields, "table_name"@, 2);
}

/// A filter that may let a row through names what the row has.
proof fn lemma_first_literal_text(column: usize, filters: Seq<PhysicalExpr>, row: FileRow)
    requires
        column < 4,
        forall|i: int| 0 <= i < filters.len() ==> may_let_through(#[trigger] filters[i], row),
    ensures
        first_literal(column, filters) matches Some(text) ==> row_text(row, column) == text,
    decreases filters.len(),
{
    if filters.len() > 0 {
        let front = filters.drop_last();
        assert forall|i: int| 0 <= i < front.len() implies may_let_through(
            #[trigger] front[i],
            row,
        ) by {
            assert(front[i] == filters[i]);
        }
        lemma_first_literal_text(column, front, row);
        assert(may_let_through(filters[filters.len() - 1], row));
        if column_literal(column, filters.last()) is Some {
            assert(column_literal(column, filters.last()) is Some);
        }
    }
}

/// Filters only prune: of all rows that the table of files can have, a query
/// lists some, in their order, and what its filters let through of them is what
/// they let through of all.
pub proof fn filters_only_prune(
    filters: Seq<PhysicalExpr>,
    tables: Seq<ListedTable>,
    found_catalog: bool,
    found_schema: bool,
    found_table: bool,
    passes: spec_fn(FileRow) -> bool,
)
    requires
        rows_tell_tables(tables),
        lookups_find_listed(
            scope_of(file_table(), filters)->Ok_0,
            tables,
            found_catalog,
            found_schema,
            found_table,
        ),
        forall|row: FileRow, i: int|
            0 <= i < filters.len() && #[trigger] passes(row) ==> may_let_through(
                #[trigger] filters[i],
                row,
            ),
    ensures
        ({
            let scope = scope_of(file_table(), filters)->Ok_0;
            let step = last_step(scope, found_catalog, found_schema, found_table);
            let all = listed_rows(StepView::ListAll, tables);
            let some = listed_rows(step, tables);
            &&& scope_of(file_table(), filters) is Ok
            &&& some == all.filter(
                |row: FileRow| lists(step, row.catalog, row.schema, row.table),
            )
            &&& some.filter(passes) == all.filter(passes)
        }),
    decreases tables.len(),
{
    let scope = scope_of(file_table(), filters)->Ok_0;
    let step = last_step(scope, found_catalog, found_schema, found_table);
    let within = |row: FileRow| lists(step, row.catalog, row.schema, row.table);
    filters_set_scope(filters);
    if tables.len() > 0 {
        let front = tables.drop_last();
        let last = tables.last();
        let n = tables.len() - 1;
        assert(forall|i: int| 0 <= i < front.len() ==> #[trigger] front[i] == tables[i]);
        assert(rows_tell_tables(front)) by {
            assert forall|i: int, k: int| 0 <= i < front.len() && 0 <= k < front[i].rows.len() implies {
                let row = #[trigger] front[i].rows[k];
                row.catalog == front[i].catalog && row.schema == front[i].schema && row.table
                    == front[i].table
            } by {
                assert(front[i].rows[k] == tables[i].rows[k]);
            }
        }
        filters_only_prune(filters, front, found_catalog, found_schema, found_table, passes);
        assert(tables[n] == last);
        assert forall|k: int| 0 <= k < last.rows.len() implies {
            let row = #[trigger] last.rows[k];
            row.catalog == last.catalog && row.schema == last.schema && row.table == last.table
        } by {
            assert(last.rows[k] == tables[n].rows[k]);
        }
        let listed = lists(step, last.catalog, last.schema, last.table);
        let part = if listed {
            last.rows
        } else {
            Seq::empty()
        };
        let all = listed_rows(StepView::ListAll, front);
        let some = listed_rows(step, front);
        Seq::filter_distributes_over_add(all, last.rows, within);
        Seq::filter_distributes_over_add(all, last.rows, passes);
        Seq::filter_distributes_over_add(some, part, passes);
        if listed {
            lemma_filter_all(last.rows, within);
        } else {
            lemma_filter_none(last.rows, within);
            lemma_filter_none(Seq::empty(), passes);
            assert forall|k: int| 0 <= k < last.rows.len() implies !passes(
                #[trigger] last.rows[k],
            ) by {
                let row = last.rows[k];
                if passes(row) {
                    lemma_first_literal_text(0, filters, row);
                    lemma_first_literal_text(1, filters, row);
                    lemma_first_literal_text(2, filters, row);
                    steps_list_what_is_asked(
                        scope,
                        found_catalog,
                        found_schema,
                        found_table,
                        last.catalog,
                        last.schema,
                        last.table,
                    );
                }
            }
            lemma_filter_none(last.rows, passes);
        }
    } else {
        lemma_filter_none(Seq::empty(), within);
    }
}

/// A filter that each of a list passes keeps them all.
proof fn lemma_filter_all(rows: Seq<FileRow>, keep: spec_fn(FileRow) -> bool)
    requires
        forall|k: int| 0 <= k < rows.len() ==> keep(#[trigger] rows[k]),
    ensures
        rows.filter(keep) == rows,
    decreases rows.len(),
{
    reveal(Seq::filter);
    if rows.len() > 0 {
        let front = rows.drop_last();
        assert(forall|k: int| 0 <= k < front.len() ==> #[trigger] front[k] == rows[k]);
        lemma_filter_all(front, keep);
        assert(keep(rows[rows.len() - 1]));
        assert(front.push(rows.last()) =~= rows);
    } else {
        assert(rows.filter(keep) =~= rows);
    }
}

/// A filter that none of a list passes keeps none.
proof fn lemma_filter_none(rows: Seq<FileRow>, keep: spec_fn(FileRow) -> bool)
    requires
        forall|k: int| 0 <= k < rows.len() ==> !keep(#[trigger] rows[k]),
    ensures
        rows.filter(keep) == Seq::<FileRow>::empty(),
    decreases rows.len(),
{
    reveal(Seq::filter);
    if rows.len() > 0 {
        let front = rows.drop_last();
        assert(forall|k: int| 0 <= k < front.len() ==> #[trigger] front[k] == rows[k]);
        lemma_filter_none(front, keep);
        assert(!keep(rows[rows.len() - 1]));
    } else {
        assert(rows.filter(keep) =~= Seq::empty());
    }
}

/// A row tells the catalog, the schema and the table under which its file was
/// listed, the file's size, and the store's path with the file's behind it. Of
/// the rows that are there, none changes.
pub proof fn rows_keep_what_was_appended(
    rows: Seq<FileRow>,
    catalog: Seq<char>,
    schema: Seq<char>,
    table: Seq<char>,
    store_url: Seq<char>,
    meta: FileMeta,
)
    ensures
        ({
            let after = rows.push(file_row(catalog, schema, table, store_url, meta));
            &&& after.len() == rows.len() + 1
            &&& forall|i: int| 0 <= i < rows.len() ==> after[i] == rows[i]
            &&& after.last().catalog == catalog && after.last().schema == schema
                && after.last().table == table
            &&& after.last().path.take(store_url.len() as int) == store_url
            &&& after.last().path.skip(store_url.len() as int) == meta.location@
            &&& after.last().size == meta.size
        }),
{
    let after = rows.push(file_row(catalog, schema, table, store_url, meta));
    let path = store_url + meta.location@;
    assert(path.take(store_url.len() as int) =~= store_url);
    assert(path.skip(store_url.len() as int) =~= meta.location@);
}

/// A text ends with another where it is some text with the other behind it. So
/// every text ends with the empty one, and with itself.
pub proof fn endings_leave_a_front(s: Seq<char>, end: Seq<char>)
    ensures
        ends_with(s, end) <==> exists|front: Seq<char>| s == #[trigger] (front + end),
        ends_with(s, Seq::empty()),
        ends_with(s, s),
{
    if ends_with(s, end) {
        let front = s.take(s.len() - end.len());
        assert(s =~= front + end);
    }
    if exists|front: Seq<char>| s == #[trigger] (front + end) {
        let front = choose|front: Seq<char>| s == #[trigger] (front + end);
        assert(s.skip(s.len() - end.len()) =~= end);
    }
    assert(s.skip(s.len() as int) =~= Seq::empty());
    assert(s.skip(0) =~= s);
}

/// A file belongs to a table where it lies below the location of the table and
/// its path is some text with the extension behind it. A table without an
/// extension has every file below its location, and no table has another.
pub proof fn files_of_a_table_have_its_extension(
    path: Seq<char>,
    extension: Seq<char>,
    below: bool,
)
    ensures
        belongs(path, extension, below) <==> below && exists|front: Seq<char>|
            path == #[trigger] (front + extension),
        belongs(path + extension, extension, below) == below,
        belongs(path, Seq::empty(), below) == below,
        !belongs(path, extension, false),
{
    endings_leave_a_front(path, extension);
    endings_leave_a_front(path + extension, extension);
    endings_leave_a_front(path, Seq::empty());
}

/// A row tells the time of its file in nanoseconds since the epoch. It does so
/// wherever 64 bits can hold them, and the second that they are counted from: the
/// one that the time lies in, or before the epoch the one behind it.
pub proof fn times_are_told_in_nanoseconds(seconds: i64, nanos: u32)
    ensures
        nanoseconds(seconds, nanos) matches Some(t) ==> t == seconds * 1_000_000_000 + nanos,
        ({
            let total = seconds * 1_000_000_000 + nanos;
            let from = if seconds < 0 {
                (seconds + 1) * 1_000_000_000
            } else {
                seconds * 1_000_000_000
            };
            nanoseconds(seconds, nanos) is Some <==> i64::MIN <= total <= i64::MAX && i64::MIN
                <= from <= i64::MAX
        }),
        nanos < 1_000_000_000 ==> (nanoseconds(seconds, nanos) is Some <==> i64::MIN <= seconds
            * 1_000_000_000 + nanos <= i64::MAX),
{
}

/// The row of a file tells when the file was modified.
pub proof fn rows_tell_when_files_were_modified(
    catalog: Seq<char>,
    schema: Seq<char>,
    table: Seq<char>,
    store_url: Seq<char>,
    meta: FileMeta,
)
    ensures
        ({
            let row = file_row(catalog, schema, table, store_url, meta);
            let time = meta.modified_seconds * 1_000_000_000 + meta.modified_nanos;
            &&& row.last_modified matches Some(t) ==> t == time
            &&& meta.modified_nanos < 1_000_000_000 ==> (row.last_modified is Some <==> i64::MIN
                <= time <= i64::MAX)
        }),
{
    times_are_told_in_nanoseconds(meta.modified_seconds, meta.modified_nanos);
}

// ---------------------------------------------------------------------------
// What filters mean
// ---------------------------------------------------------------------------

/// How an engine evaluates the filters of a scan: its operators, and every other
/// kind of expression, by the place where it stands in its filter.
pub struct FilterEngine {
    pub binary: spec_fn(Operator, ScalarView, ScalarView) -> ScalarView,
    pub other: spec_fn(Seq<bool>) -> ScalarView,
}

/// One of the six operators that compare values.
pub open spec fn comparing(op: Operator) -> bool {
    op == Operator::Eq || op == Operator::NotEq || op == Operator::Lt || op == Operator::LtEq || op
        == Operator::Gt || op == Operator::GtEq
}

/// Two texts compare as an operator says.
pub open spec fn texts_compare(op: Operator, a: Seq<char>, b: Seq<char>) -> bool {
    match op {
        Operator::Eq => a == b,
        Operator::NotEq => a != b,
        Operator::Lt => text_lt(a, b),
        Operator::LtEq => a == b || text_lt(a, b),
        Operator::Gt => text_lt(b, a),
        _ => a == b || text_lt(b, a),
    }
}

impl FilterEngine {
    /// The engine evaluates as SQL does: a conjunction is true where both sides
    /// are, a disjunction where one side is, texts compare by their order, and a
    /// comparison with a null is not true.
    pub open spec fn lawful(self) -> bool {
        &&& forall|a: ScalarView, b: ScalarView| #[trigger]
            is_true((self.binary)(Operator::And, a, b)) <==> is_true(a) && is_true(b)
        &&& forall|a: ScalarView, b: ScalarView| #[trigger]
            is_true((self.binary)(Operator::Or, a, b)) <==> is_true(a) || is_true(b)
        &&& forall|op: Operator, a: ScalarView, b: ScalarView|
            comparing(op) && a.value is Some && a.value->0 is Text && b.value is Some && b.value->0
                is Text ==> (#[trigger] is_true((self.binary)(op, a, b)) <==> texts_compare(
                op,
                a.value->0->Text_0,
                b.value->0->Text_0,
            ))
        &&& forall|op: Operator, a: ScalarView, b: ScalarView|
            comparing(op) && (a.value is None || b.value is None) ==> !(#[trigger] is_true(
                (self.binary)(op, a, b),
            ))
    }
}

/// The value of a filter, or of a part of it that stands at a place, on a row.
pub open spec fn filter_value(
    engine: FilterEngine,
    row: spec_fn(usize) -> ScalarView,
    at: Seq<bool>,
    filter: PhysicalExpr,
) -> ScalarView
    decreases filter,
{
    match filter {
        PhysicalExpr::BinaryExpr { left, op, right } => (engine.binary)(
            op,
            filter_value(engine, row, at.push(false), *left),
            filter_value(engine, row, at.push(true), *right),
        ),
        PhysicalExpr::Column(c) => row(c),
        PhysicalExpr::Literal(v) => v@,
        PhysicalExpr::Other => (engine.other)(at),
    }
}

/// The filter is true of a row.
pub open spec fn is_true_of(
    engine: FilterEngine,
    row: spec_fn(usize) -> ScalarView,
    filter: PhysicalExpr,
) -> bool {
    is_true(filter_value(engine, row, Seq::empty(), filter))
}

/// There are engines that evaluate filters as SQL does.
pub proof fn lawful_filter_engines_exist()
    ensures
        exists|engine: FilterEngine| engine.lawful(),
{
    let truth = |b: bool|
        ScalarView { data_type: DataTypeView::Boolean, value: Some(Datum::Boolean(b)) };
    let engine = FilterEngine {
        binary: |op: Operator, a: ScalarView, b: ScalarView|
            truth(
                if op == Operator::And {
                    is_true(a) && is_true(b)
                } else if op == Operator::Or {
                    is_true(a) || is_true(b)
                } else {
                    comparing(op) && a.value is Some && a.value->0 is Text && b.value is Some
                        && b.value->0 is Text && texts_compare(
                        op,
                        a.value->0->Text_0,
                        b.value->0->Text_0,
                    )
                },
            ),
        other: |at: Seq<bool>| truth(false),
    };
    assert(engine.lawful());
}

/// What is read from a filter is what it says: a row of which the filter is true
/// has, in the column, the text that is read for the column.
pub proof fn read_texts_are_those_of_the_row(
    engine: FilterEngine,
    row: spec_fn(usize) -> ScalarView,
    filter: PhysicalExpr,
    column: usize,
)
    requires
        engine.lawful(),
        is_true_of(engine, row, filter),
        row(column).value is None || row(column).value->0 is Text,
    ensures
        column_literal(column, filter) matches Some(text) ==> row(column).value == Some(
            Datum::Text(text),
        ),
{
    if let PhysicalExpr::BinaryExpr { left, op, right } = filter {
        if column_literal(column, filter) is Some {
            let a = filter_value(engine, row, Seq::empty().push(false), *left);
            let b = filter_value(engine, row, Seq::empty().push(true), *right);
            assert(is_true((engine.binary)(op, a, b)));
            match (*left, *right) {
                (PhysicalExpr::Column(_), PhysicalExpr::Literal(v)) => {
                    assert(v@.value == Some(Datum::Text(text_of(v)->0)));
                },
                (PhysicalExpr::Literal(v), PhysicalExpr::Column(_)) => {
                    assert(v@.value == Some(Datum::Text(text_of(v)->0)));
                },
                _ => {},
            }
        }
    }
}

proof fn lemma_first_read_text(
    engine: FilterEngine,
    row: spec_fn(usize) -> ScalarView,
    filters: Seq<PhysicalExpr>,
    column: usize,
)
    requires
        engine.lawful(),
        forall|i: int| 0 <= i < filters.len() ==> is_true_of(engine, row, #[trigger] filters[i]),
        row(column).value is None || row(column).value->0 is Text,
    ensures
        first_literal(column, filters) matches Some(text) ==> row(column).value == Some(
            Datum::Text(text),
        ),
    decreases filters.len(),
{
    if filters.len() > 0 {
        let front = filters.drop_last();
        assert forall|i: int| 0 <= i < front.len() implies is_true_of(
            engine,
            row,
            #[trigger] front[i],
        ) by {
            assert(front[i] == filters[i]);
        }
        lemma_first_read_text(engine, row, front, column);
        assert(is_true_of(engine, row, filters[filters.len() - 1]));
        read_texts_are_those_of_the_row(engine, row, filters.last(), column);
    }
}

/// A query that asks for one catalog, schema or table asks for those of every row
/// of which its filters are true.
pub proof fn scope_names_what_true_rows_have(
    engine: FilterEngine,
    fields: Seq<FileFieldView>,
    filters: Seq<PhysicalExpr>,
    row: spec_fn(usize) -> ScalarView,
)
    requires
        engine.lawful(),
        scope_of(fields, filters) is Ok,
        forall|i: int| 0 <= i < filters.len() ==> is_true_of(engine, row, #[trigger] filters[i]),
        forall|c: usize| (#[trigger] row(c)).value is None || row(c).value->0 is Text,
    ensures
        ({
            let scope = scope_of(fields, filters)->Ok_0;
            let at = |name: Seq<char>| row(field_index(fields, name)->0 as usize).value;
            &&& scope.catalog matches Some(t) ==> at("table_catalog"@) == Some(Datum::Text(t))
            &&& scope.schema matches Some(t) ==> at("table_schema"@) == Some(Datum::Text(t))
            &&& scope.table matches Some(t) ==> at("table_name"@) == Some(Datum::Text(t))
        }),
{
    let c = field_index(fields, "table_catalog"@)->0 as usize;
    let s = field_index(fields, "table_schema"@)->0 as usize;
    let t = field_index(fields, "table_name"@)->0 as usize;
    assert(row(c).value is None || row(c).value->0 is Text);
    assert(row(s).value is None || row(s).value->0 is Text);
    assert(row(t).value is None || row(t).value->0 is Text);
    lemma_first_read_text(engine, row, filters, c);
    lemma_first_read_text(engine, row, filters, s);
    lemma_first_read_text(engine, row, filters, t);
}

/// The value that a row of the table of files has in a column.
pub open spec fn file_value(row: FileRow, column: usize) -> ScalarView {
    let text = |t: Seq<char>|
        ScalarView { data_type: DataTypeView::Utf8, value: Some(Datum::Text(t)) };
    if column == 0 {
        text(row.catalog)
    } else if column == 1 {
        text(row.schema)
    } else if column == 2 {
        text(row.table)
    } else if column == 3 {
        text(row.path)
    } else if column == 4 {
        ScalarView {
            data_type: DataTypeView::Timestamp(TimeUnit::Nanosecond, Some("UTC"@)),
            value: match row.last_modified {
                Some(t) => Some(Datum::Integer(t as int)),
                None => None,
            },
        }
    } else {
        ScalarView { data_type: DataTypeView::UInt64, value: Some(Datum::Integer(row.size as int)) }
    }
}

/// All the filters of a scan are true of a row.
pub open spec fn lets_through(
    engine: FilterEngine,
    filters: Seq<PhysicalExpr>,
    row: FileRow,
) -> bool {
    forall|i: int|
        0 <= i < filters.len() ==> is_true_of(
            engine,
            |column: usize| file_value(row, column),
            #[trigger] filters[i],
        )
}

/// A scan loses no row: of all rows that the table of files can have, those that
/// are listed for a query have among them, in their order, every row of which the
/// filters of the query are true.
pub proof fn scans_list_every_row_of_their_filters(
    engine: FilterEngine,
    filters: Seq<PhysicalExpr>,
    tables: Seq<ListedTable>,
    found_catalog: bool,
    found_schema: bool,
    found_table: bool,
)
    requires
        engine.lawful(),
        rows_tell_tables(tables),
        lookups_find_listed(
            scope_of(file_table(), filters)->Ok_0,
            tables,
            found_catalog,
            found_schema,
            found_table,
        ),
    ensures
        ({
            let scope = scope_of(file_table(), filters)->Ok_0;
            let step = last_step(scope, found_catalog, found_schema, found_table);
            let passes = |row: FileRow| lets_through(engine, filters, row);
            listed_rows(step, tables).filter(passes) == listed_rows(
                StepView::ListAll,
                tables,
            ).filter(passes)
        }),
{
    let passes = |row: FileRow| lets_through(engine, filters, row);
    assert forall|row: FileRow, i: int|
        0 <= i < filters.len() && #[trigger] passes(row) implies may_let_through(
        #[trigger] filters[i],
        row,
    ) by {
        let cells = |column: usize| file_value(row, column);
        assert(lets_through(engine, filters, row));
        assert(is_true_of(engine, cells, filters[i]));
        assert forall|column: usize|
            column < 4 implies (#[trigger] column_literal(column, filters[i]) matches Some(text)
            ==> row_text(row, column) == text) by {
            read_texts_are_those_of_the_row(engine, cells, filters[i], column);
        }
    }
    filters_only_prune(filters, tables, found_catalog, found_schema, found_table, passes);
}

/// A filter says that the column at a place is equal to a text.
pub open spec fn equates_column(filter: PhysicalExpr, column: usize, text: Seq<char>) -> bool {
    filter matches PhysicalExpr::BinaryExpr { left, op, right } && op == Operator::Eq && exists|
        v: ScalarValue,
    |
        {
            &&& v@.data_type is Utf8 || v@.data_type is LargeUtf8
            &&& #[trigger] v@.value == Some(Datum::Text(text))
            &&& (*left == PhysicalExpr::Column(column) && *right == PhysicalExpr::Literal(v)) || (
            *left == PhysicalExpr::Literal(v) && *right == PhysicalExpr::Column(column))
        }
}

/// A query asks for a name wherever one of its filters says that the column of the
/// name is equal to a text, on whichever side the column stands; it asks for the
/// text of the first such filter, and for nothing where there is none.
pub proof fn equalities_set_the_scope(column: usize, filters: Seq<PhysicalExpr>)
    ensures
        first_literal(column, filters) is None <==> forall|k: int, text: Seq<char>|
            0 <= k < filters.len() ==> !(#[trigger] equates_column(filters[k], column, text)),
        forall|k: int, text: Seq<char>|
            0 <= k < filters.len() && #[trigger] equates_column(filters[k], column, text) && (forall|
                j: int,
                other: Seq<char>,
            |
                0 <= j < k ==> !(#[trigger] equates_column(filters[j], column, other)))
                ==> first_literal(column, filters) == Some(text),
    decreases filters.len(),
{
    assert forall|k: int, text: Seq<char>| 0 <= k < filters.len() implies (#[trigger]
        equates_column(filters[k], column, text) <==> column_literal(column, filters[k]) == Some(
        text,
    )) by {
        lemma_equates_column(filters[k], column, text);
    }
    if filters.len() > 0 {
        let front = filters.drop_last();
        let n = filters.len() - 1;
        equalities_set_the_scope(column, front);
        assert(forall|j: int| 0 <= j < front.len() ==> #[trigger] front[j] == filters[j]);
        if first_literal(column, front) is Some {
            let (k, text) = choose|k: int, text: Seq<char>|
                0 <= k < front.len() && #[trigger] equates_column(front[k], column, text);
            assert(equates_column(filters[k], column, text));
        } else {
            assert forall|k: int, text: Seq<char>| 0 <= k < front.len() implies !(#[trigger]
                equates_column(filters[k], column, text)) by {
                assert(!equates_column(front[k], column, text));
            }
            if column_literal(column, filters[n]) is Some {
                assert(equates_column(
                    filters[n],
                    column,
                    column_literal(column, filters[n])->0,
                ));
            }
        }
        assert forall|k: int, text: Seq<char>|
            0 <= k < filters.len() && #[trigger] equates_column(filters[k], column, text) && (forall|
                j: int,
                other: Seq<char>,
            |
                0 <= j < k ==> !(#[trigger] equates_column(filters[j], column, other))) implies first_literal(
            column,
            filters,
        ) == Some(text) by {
            if k < n {
                assert(equates_column(front[k], column, text));
                assert forall|j: int, other: Seq<char>| 0 <= j < k implies !(#[trigger]
                    equates_column(front[j], column, other)) by {
                    assert(!equates_column(filters[j], column, other));
                }
            } else {
                assert forall|j: int, other: Seq<char>| 0 <= j < front.len() implies !(#[trigger]
                    equates_column(front[j], column, other)) by {
                    assert(!equates_column(filters[j], column, other));
                }
            }
        }
    }
}

proof fn lemma_equates_column(filter: PhysicalExpr, column: usize, text: Seq<char>)
    ensures
        equates_column(filter, column, text) <==> column_literal(column, filter) == Some(text),
{
    if let PhysicalExpr::BinaryExpr { left, op, right } = filter {
        match (*left, *right) {
            (PhysicalExpr::Column(_), PhysicalExpr::Literal(v)) => {
                lemma_text_of(v);
            },
            (PhysicalExpr::Literal(v), PhysicalExpr::Column(_)) => {
                lemma_text_of(v);
            },
            _ => {},
        }
        if column_literal(column, filter) == Some(text) {
            let v = match (*left, *right) {
                (PhysicalExpr::Column(_), PhysicalExpr::Literal(v)) => v,
                (PhysicalExpr::Literal(v), _) => v,
                _ => ScalarValue::Null,
            };
            assert(v@.value == Some(Datum::Text(text)));
        }
    }
}

proof fn lemma_text_of(v: ScalarValue)
    ensures
        text_of(v) matches Some(t) <==> (v@.data_type is Utf8 || v@.data_type is LargeUtf8)
            && v@.value is Some,
        text_of(v) matches Some(t) ==> v@.value == Some(Datum::Text(t)),
{
}

// ---------------------------------------------------------------------------
// Fields and batches
// ---------------------------------------------------------------------------

/// A column is found at the first field of its name, and reported where no field
/// has the name.
pub proof fn columns_are_found_by_their_names(fields: Seq<FileFieldView>, name: Seq<char>, i: int)
    ensures
        place(fields, name) == Ok::<int, ErrorView>(i) <==> {
            &&& 0 <= i < fields.len()
            &&& fields[i].name == name
            &&& forall|j: int| 0 <= j < i ==> (#[trigger] fields[j]).name != name
        },
        place(fields, name) == Err::<int, ErrorView>(ErrorView::NoSuchColumn(name)) <==> forall|
            j: int,
        |
            0 <= j < fields.len() ==> (#[trigger] fields[j]).name != name,
{
    lemma_field_index_found(fields, name);
    if 0 <= i < fields.len() && fields[i].name == name && (forall|j: int|
        0 <= j < i ==> (#[trigger] fields[j]).name != name) {
        lemma_field_index_at(fields, name, i);
    }
    if forall|j: int| 0 <= j < fields.len() ==> (#[trigger] fields[j]).name != name {
        lemma_field_index_none(fields, name);
    }
}

proof fn lemma_field_index_found(fields: Seq<FileFieldView>, name: Seq<char>)
    ensures
        match field_index(fields, name) {
            Some(i) => 0 <= i < fields.len() && fields[i].name == name && forall|j: int|
                0 <= j < i ==> (#[trigger] fields[j]).name != name,
            None => forall|j: int| 0 <= j < fields.len() ==> (#[trigger] fields[j]).name != name,
        },
    decreases fields.len(),
{
    if fields.len() > 0 {
        let front = fields.drop_last();
        lemma_field_index_found(front, name);
        assert(forall|j: int| 0 <= j < front.len() ==> front[j] == #[trigger] fields[j]);
    }
}

/// A query over a table of some fields knows what is asked for where the table has
/// a column for the catalog, one for the schema and one for the table; else it
/// reports the first of them that is missing.
pub proof fn scopes_need_the_columns_of_names(
    fields: Seq<FileFieldView>,
    filters: Seq<PhysicalExpr>,
    c: int,
    s: int,
    t: int,
)
    ensures
        ({
            let lacks = |name: Seq<char>|
                forall|j: int| 0 <= j < fields.len() ==> (#[trigger] fields[j]).name != name;
            let missing = |name: Seq<char>|
                scope_of(fields, filters) == Err::<ScopeView, ErrorView>(
                    ErrorView::NoSuchColumn(name),
                );
            &&& lacks("table_catalog"@) ==> missing("table_catalog"@)
            &&& !lacks("table_catalog"@) && lacks("table_schema"@) ==> missing("table_schema"@)
            &&& !lacks("table_catalog"@) && !lacks("table_schema"@) && lacks("table_name"@)
                ==> missing("table_name"@)
            &&& !lacks("table_catalog"@) && !lacks("table_schema"@) && !lacks("table_name"@)
                ==> scope_of(fields, filters) is Ok
        }),
        place(fields, "table_catalog"@) == Ok::<int, ErrorView>(c) && place(
            fields,
            "table_schema"@,
        ) == Ok::<int, ErrorView>(s) && place(fields, "table_name"@) == Ok::<int, ErrorView>(t)
            ==> {
            &&& scope_of(fields, filters)->Ok_0.catalog == first_literal(c as usize, filters)
            &&& scope_of(fields, filters)->Ok_0.schema == first_literal(s as usize, filters)
            &&& scope_of(fields, filters)->Ok_0.table == first_literal(t as usize, filters)
        },
{
    lemma_field_index_found(fields, "table_catalog"@);
    lemma_field_index_found(fields, "table_schema"@);
    lemma_field_index_found(fields, "table_name"@);
}

/// A query ends after it has listed something, and where something that it names is
/// not there.
pub proof fn queries_end_after_listing(scope: ScopeView, step: StepView, found: bool)
    ensures
        !found ==> step_after(scope, step, found) == StepView::Done,
        step is ListAll || step is ListCatalog || step is ListSchema || step is ListTable || step
            is Done ==> step_after(scope, step, found) == StepView::Done,
        !(step_after(scope, step, found) is ListAll),
        !(step_after(scope, step, found) is LookUpCatalog),
{
}

/// A projection has the field that each of its indices names, in its order, and no
/// projection has all fields. The first index that names no field is reported.
pub proof fn projections_have_the_fields_they_name(
    fields: Seq<FileFieldView>,
    indices: Seq<usize>,
    i: int,
)
    requires
        0 <= i < indices.len(),
    ensures
        projected(fields, None) == Ok::<Seq<FileFieldView>, ErrorView>(fields),
        in_bounds(indices, fields.len()) ==> (projected(fields, Some(indices)) matches Ok(s)
            && s.len() == indices.len() && s[i] == fields[indices[i] as int]),
        indices[i] >= fields.len() && (forall|k: int|
            0 <= k < i ==> (#[trigger] indices[k]) < fields.len()) ==> projected(
            fields,
            Some(indices),
        ) == Err::<Seq<FileFieldView>, ErrorView>(
            ErrorView::ProjectionOutOfBounds { index: indices[i], fields: fields.len() as usize },
        ),
{
    lemma_out_of_bounds(indices, fields.len());
    if let Some(k) = first_index_out(indices, fields.len()) {
        if indices[i] >= fields.len() && (forall|k: int|
            0 <= k < i ==> (#[trigger] indices[k]) < fields.len()) {
            assert(k == i);
        }
        if in_bounds(indices, fields.len()) {
            assert(indices[k] < fields.len());
        }
    } else {
        assert(indices[i] < fields.len());
    }
}

/// The place of the first index that names no field.
spec fn first_index_out(indices: Seq<usize>, fields: nat) -> Option<int>
    decreases indices.len(),
{
    if indices.len() == 0 {
        None
    } else {
        match first_index_out(indices.drop_last(), fields) {
            Some(i) => Some(i),
            None => if indices.last() >= fields {
                Some(indices.len() - 1)
            } else {
                None
            },
        }
    }
}

proof fn lemma_out_of_bounds(indices: Seq<usize>, fields: nat)
    ensures
        match first_index_out(indices, fields) {
            Some(i) => {
                &&& 0 <= i < indices.len()
                &&& indices[i] >= fields
                &&& forall|k: int| 0 <= k < i ==> (#[trigger] indices[k]) < fields
                &&& first_out_of_bounds(indices, fields) == Some(indices[i])
            },
            None => in_bounds(indices, fields) && first_out_of_bounds(indices, fields) is None,
        },
    decreases indices.len(),
{
    if indices.len() > 0 {
        let front = indices.drop_last();
        lemma_out_of_bounds(front, fields);
        assert(forall|k: int| 0 <= k < front.len() ==> front[k] == #[trigger] indices[k]);
    }
}

/// The columns of the rows of files are those that the fields of the table name:
/// in each row, the catalog, the schema, the table and the path of the file as
/// texts, the time of its last change in nanoseconds of UTC, and its size.
pub proof fn columns_hold_what_their_fields_name(rows: Seq<FileRow>, k: int)
    requires
        0 <= k < rows.len(),
    ensures
        columns_of(rows).len() == file_table().len(),
        forall|i: int|
            0 <= i < columns_of(rows).len() ==> (#[trigger] columns_of(rows)[i]).len()
                == rows.len() && !file_table()[i].nullable,
        ({
            let cell = |name: Seq<char>|
                columns_of(rows)[field_index(file_table(), name)->0][k];
            let data_type = |name: Seq<char>|
                file_table()[field_index(file_table(), name)->0].data_type;
            &&& cell("table_catalog"@) == Cell::Text(rows[k].catalog)
            &&& cell("table_schema"@) == Cell::Text(rows[k].schema)
            &&& cell("table_name"@) == Cell::Text(rows[k].table)
            &&& cell("file_path"@) == Cell::Text(rows[k].path)
            &&& rows[k].last_modified matches Some(t) ==> cell("last_modified"@)
                == Cell::Nanoseconds(t)
            &&& cell("size"@) == Cell::Size(rows[k].size)
            &&& data_type("table_catalog"@) == DataTypeView::Utf8
            &&& data_type("table_schema"@) == DataTypeView::Utf8
            &&& data_type("table_name"@) == DataTypeView::Utf8
            &&& data_type("file_path"@) == DataTypeView::Utf8
            &&& data_type("last_modified"@) == DataTypeView::Timestamp(
                TimeUnit::Nanosecond,
                Some("UTC"@),
            )
            &&& data_type("size"@) == DataTypeView::UInt64
        }),
{
    reveal_strlit("table_catalog");
    reveal_strlit("table_schema");
    reveal_strlit("table_name");
    reveal_strlit("file_path");
    reveal_strlit("last_modified");
    reveal_strlit("size");
    let fields = file_table();
    assert("table_catalog"@.len() == 13 && "table_schema"@.len() == 12 && "table_name"@.len() == 10
        && "file_path"@.len() == 9 && "last_modified"@.len() == 13 && "size"@.len() == 4);
    assert("table_catalog"@[0] != "last_modified"@[0]);
    lemma_field_index_at(fields, "table_catalog"@, 0);
    lemma_field_index_at(fields, "table_schema"@, 1);
    lemma_field_index_at(fields, "table_name"@, 2);
    lemma_field_index_at(fields, "file_path"@, 3);
    lemma_field_index_at(fields, "last_modified"@, 4);
    lemma_field_index_at(fields, "size"@, 5);
}

/// A batch is projected to the columns that the indices of a projection name, in
/// its order, with all its rows; without a projection it stays as it is.
pub proof fn batches_keep_what_is_projected(
    batch: FileBatch,
    of: FileBatch,
    indices: Seq<usize>,
)
    ensures
        is_projection(batch, of, None) <==> batch == of,
        is_projection(batch, of, Some(indices)) <==> {
            &&& batch_rows(batch) == batch_rows(of)
            &&& batch_columns(batch).len() == indices.len()
            &&& forall|i: int|
                0 <= i < indices.len() ==> #[trigger] batch_columns(batch)[i] == batch_columns(
                    of,
                )[indices[i] as int]
        },
{
    let s = Seq::new(indices.len(), |i: int| batch_columns(of)[indices[i] as int]);
    if batch_columns(batch).len() == indices.len() && (forall|i: int|
        0 <= i < indices.len() ==> #[trigger] batch_columns(batch)[i] == batch_columns(
            of,
        )[indices[i] as int]) {
        assert(batch_columns(batch) =~= s);
    }
}

/// The bytes of some texts are those of each of them together.
pub proof fn bytes_of_texts_add_up(texts: Seq<Seq<char>>, text: Seq<char>)
    ensures
        byte_count(Seq::empty()) == 0,
        byte_count(seq![text]) == encode_utf8(text).len(),
        byte_count(texts.push(text)) == byte_count(texts) + byte_count(seq![text]),
{
    assert(texts.push(text).drop_last() =~= texts);
    let one = seq![text];
    assert(one.drop_last() =~= Seq::empty());
    assert(byte_count(one.drop_last()) == 0);
    assert(byte_count(one) == byte_count(one.drop_last()) + encode_utf8(one.last()).len());
}

/// The results of several tasks are put together to the items of all of them, in
/// order, or to the first error: no result adds nothing, one result stands for
/// itself, and one more result adds its items, unless there was an error before.
pub proof fn results_are_put_together_in_order<T, E>(
    s: Seq<Result<Vec<T>, E>>,
    more: Result<Vec<T>, E>,
    i: int,
)
    ensures
        gathered::<T, E>(Seq::empty()) == Ok::<Seq<T>, E>(Seq::empty()),
        gathered(s) is Ok <==> forall|k: int| 0 <= k < s.len() ==> (#[trigger] s[k]) is Ok,
        0 <= i < s.len() && s[i] is Err && (forall|k: int| 0 <= k < i ==> (#[trigger] s[k]) is Ok)
            ==> gathered(s) == Err::<Seq<T>, E>(s[i]->Err_0),
        gathered(s) matches Ok(front) ==> match more {
            Ok(items) => gathered(s.push(more)) == Ok::<Seq<T>, E>(front + items@),
            Err(e) => gathered(s.push(more)) == Err::<Seq<T>, E>(e),
        },
        gathered(s) is Err ==> gathered(s.push(more)) == gathered(s),
    decreases s.len(),
{
    assert(s.push(more).drop_last() =~= s);
    if s.len() > 0 {
        let front = s.drop_last();
        results_are_put_together_in_order(front, s.last(), i);
        assert(forall|k: int| 0 <= k < front.len() ==> #[trigger] front[k] == s[k]);
        assert(s[s.len() - 1] == s.last());
        if gathered(s) is Ok {
            assert forall|k: int| 0 <= k < s.len() implies (#[trigger] s[k]) is Ok by {
                if k < front.len() {
                    assert(front[k] is Ok);
                }
            }
        }
        if 0 <= i < s.len() && s[i] is Err && (forall|k: int|
            0 <= k < i ==> (#[trigger] s[k]) is Ok) {
            if i < front.len() {
                assert(front[i] is Err);
                assert(forall|k: int| 0 <= k < i ==> (#[trigger] front[k]) is Ok);
            } else {
                assert(forall|k: int| 0 <= k < front.len() ==> (#[trigger] front[k]) is Ok);
            }
        }
    }
}

/// The filters of a scan are shown one behind the other, with a comma between them.
pub proof fn filters_are_shown_with_commas(filters: Seq<Seq<char>>, more: Seq<char>)
    ensures
        listed(Seq::empty()) == Seq::<char>::empty(),
        listed(seq![more]) == more,
        filters.len() > 0 ==> listed(filters.push(more)) == listed(filters) + seq![',', ' '] + more,
{
    reveal_strlit(", ");
    assert(", "@ =~= seq![',', ' ']);
    assert(filters.push(more).drop_last() =~= filters);
}

/// The rows of a batch fit where each of its four texts has, over all rows, at most
/// as many bytes as 31 bits count; no rows fit, and so do the first of rows that
/// fit.
pub proof fn rows_fit_where_their_texts_do(rows: Seq<FileRow>, row: FileRow)
    ensures
        ({
            let bytes = |part: spec_fn(FileRow) -> Seq<char>|
                byte_count(Seq::new(rows.len(), |i: int| part(rows[i])));
            fits(rows) <==> bytes(|r: FileRow| r.catalog) <= 2_147_483_647 && bytes(
                |r: FileRow| r.schema,
            ) <= 2_147_483_647 && bytes(|r: FileRow| r.table) <= 2_147_483_647 && bytes(
                |r: FileRow| r.path,
            ) <= 2_147_483_647
        }),
        fits(Seq::empty()),
        fits(rows.push(row)) ==> fits(rows),
{
    let names = |part: spec_fn(FileRow) -> Seq<char>|
        Seq::new(rows.len(), |i: int| part(rows[i]));
    assert(names(|r: FileRow| r.catalog) =~= Seq::new(rows.len(), |i: int| rows[i].catalog));
    assert(names(|r: FileRow| r.schema) =~= Seq::new(rows.len(), |i: int| rows[i].schema));
    assert(names(|r: FileRow| r.table) =~= Seq::new(rows.len(), |i: int| rows[i].table));
    assert(names(|r: FileRow| r.path) =~= Seq::new(rows.len(), |i: int| rows[i].path));
    let more = rows.push(row);
    let catalogs = Seq::new(rows.len(), |i: int| rows[i].catalog);
    let schemas = Seq::new(rows.len(), |i: int| rows[i].schema);
    let tables = Seq::new(rows.len(), |i: int| rows[i].table);
    let paths = Seq::new(rows.len(), |i: int| rows[i].path);
    assert(Seq::new(more.len(), |i: int| more[i].catalog) =~= catalogs.push(row.catalog));
    assert(Seq::new(more.len(), |i: int| more[i].schema) =~= schemas.push(row.schema));
    assert(Seq::new(more.len(), |i: int| more[i].table) =~= tables.push(row.table));
    assert(Seq::new(more.len(), |i: int| more[i].path) =~= paths.push(row.path));
    bytes_of_texts_add_up(catalogs, row.catalog);
    bytes_of_texts_add_up(schemas, row.schema);
    bytes_of_texts_add_up(tables, row.table);
    bytes_of_texts_add_up(paths, row.path);
}

} // verus!
