//! Why an operation of this library fails.
use vstd::prelude::*;

use crate::names::{Column, ColumnView};

verus! {

/// Why an operation of this library fails.
#[derive(Debug, PartialEq, Eq, Hash)]
pub enum Error {
    /// The plan holds a join.
    JoinNotSupported,
    /// The plan holds a node, given as it displays itself, whose filters
    /// cannot be collected.
    UnsupportedPlan(String),
    /// The plan holds a node, given as it displays itself, whose outputs cannot
    /// be expressed over tables.
    OutputNotSupported(String),
    /// Two fields of one schema have the same name.
    DuplicateField(Column),
    /// No field goes by the name of the column.
    FieldNotFound(Column),
    /// Several fields go by the name of the column.
    AmbiguousReference(Column),
    /// A projection names a field that is not there.
    ProjectionOutOfBounds { index: usize, fields: usize },
    /// Two intervals have different types.
    IntervalTypes,
    /// The lower bound of an interval is above the upper one.
    IntervalBounds,
    /// A value cannot be cast to the type of the column that it is compared
    /// with.
    Cast,
    /// A strict bound cannot be written as a closed one, for the type has no
    /// next value.
    StrictBound,
    /// Every value of the type compares as the operator says.
    NoBound,
    /// The operator does not give a range.
    UnsupportedOperator,
    /// The column is in no equivalence class.
    NoEquivalenceClass(Column),
    /// The schema has no column of that name.
    NoSuchColumn(String),
    /// A file was modified at a time that nanoseconds cannot tell.
    TimestampOutOfRange,
    /// A batch of rows lacks a column that a projection names.
    BatchProjection,
    /// The location of a table, or the path of a file, cannot be read.
    Location,
    /// The static partition columns of a materialized view are not the first of
    /// its partition columns.
    StaticPartitionColumns { static_columns: Vec<String>, all_columns: Vec<String> },
}

/// The texts of an [`Error`].
pub enum ErrorView {
    JoinNotSupported,
    UnsupportedPlan(Seq<char>),
    OutputNotSupported(Seq<char>),
    DuplicateField(ColumnView),
    FieldNotFound(ColumnView),
    AmbiguousReference(ColumnView),
    ProjectionOutOfBounds { index: usize, fields: usize },
    IntervalTypes,
    IntervalBounds,
    Cast,
    StrictBound,
    NoBound,
    UnsupportedOperator,
    NoEquivalenceClass(ColumnView),
    NoSuchColumn(Seq<char>),
    TimestampOutOfRange,
    BatchProjection,
    Location,
    StaticPartitionColumns { static_columns: Seq<Seq<char>>, all_columns: Seq<Seq<char>> },
}

/// The texts of a list of strings.
pub open spec fn strings_view(s: Seq<String>) -> Seq<Seq<char>> {
    Seq::new(s.len(), |i: int| s[i]@)
}

impl View for Error {
    type V = ErrorView;

    open spec fn view(&self) -> ErrorView {
        match *self {
            Error::JoinNotSupported => ErrorView::JoinNotSupported,
            Error::UnsupportedPlan(node) => ErrorView::UnsupportedPlan(node@),
            Error::OutputNotSupported(node) => ErrorView::OutputNotSupported(node@),
            Error::DuplicateField(column) => ErrorView::DuplicateField(column@),
            Error::FieldNotFound(column) => ErrorView::FieldNotFound(column@),
            Error::AmbiguousReference(column) => ErrorView::AmbiguousReference(column@),
            Error::ProjectionOutOfBounds { index, fields } => ErrorView::ProjectionOutOfBounds {
                index,
                fields,
            },
            Error::IntervalTypes => ErrorView::IntervalTypes,
            Error::IntervalBounds => ErrorView::IntervalBounds,
            Error::Cast => ErrorView::Cast,
            Error::StrictBound => ErrorView::StrictBound,
            Error::NoBound => ErrorView::NoBound,
            Error::UnsupportedOperator => ErrorView::UnsupportedOperator,
            Error::NoEquivalenceClass(column) => ErrorView::NoEquivalenceClass(column@),
            Error::NoSuchColumn(name) => ErrorView::NoSuchColumn(name@),
            Error::TimestampOutOfRange => ErrorView::TimestampOutOfRange,
            Error::BatchProjection => ErrorView::BatchProjection,
            Error::Location => ErrorView::Location,
            Error::StaticPartitionColumns { static_columns, all_columns } =>
                ErrorView::StaticPartitionColumns {
                static_columns: strings_view(static_columns@),
                all_columns: strings_view(all_columns@),
            },
        }
    }
}

} // verus!
