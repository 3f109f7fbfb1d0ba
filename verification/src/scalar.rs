//! Scalar values and their types.
use vstd::prelude::*;

use crate::text::{
    bytes_lt, lemma_bytes_lt_irreflexive, lemma_bytes_lt_total, lemma_bytes_lt_transitive,
    lemma_text_lt_irreflexive, lemma_text_lt_total, lemma_text_lt_transitive, text_lt,
};

verus! {

/// The unit of a timestamp.
#[derive(Debug, Clone, Copy, PartialEq, Eq, Hash, Structural)]
pub enum TimeUnit {
    Second,
    Millisecond,
    Microsecond,
    Nanosecond,
}

/// The type of the keys of a dictionary.
#[derive(Debug, Clone, Copy, PartialEq, Eq, Hash, Structural)]
pub enum KeyType {
    Int8,
    Int16,
    Int32,
    Int64,
    UInt8,
    UInt16,
    UInt32,
    UInt64,
}

/// An integer of 256 bits: the high half, and the low half, which has no sign.
#[derive(Debug, Clone, Copy, PartialEq, Eq, Hash, Structural)]
pub struct Int256 {
    pub high: i128,
    pub low: u128,
}

/// A span of days and milliseconds.
#[derive(Debug, Clone, Copy, PartialEq, Eq, Hash, Structural)]
pub struct DayTime {
    pub days: i32,
    pub milliseconds: i32,
}

/// A span of months, days and nanoseconds.
#[derive(Debug, Clone, Copy, PartialEq, Eq, Hash, Structural)]
pub struct MonthDayNano {
    pub months: i32,
    pub days: i32,
    pub nanoseconds: i64,
}

/// What the high half of an integer of 256 bits counts in.
pub open spec fn half() -> int {
    0x1_0000_0000_0000_0000_0000_0000_0000_0000int
}

impl View for Int256 {
    type V = int;

    open spec fn view(&self) -> int {
        self.high * half() + self.low
    }
}

/// The type of a scalar value.
///
/// `Other` stands for every type whose values are not looked into, and names
/// that type.
#[derive(Debug, PartialEq, Eq, Hash)]
pub enum DataType {
    Null,
    Boolean,
    Int8,
    Int16,
    Int32,
    Int64,
    UInt8,
    UInt16,
    UInt32,
    UInt64,
    Utf8,
    Utf8View,
    LargeUtf8,
    Date32,
    Date64,
    Time32Second,
    Time32Millisecond,
    Time64Microsecond,
    Time64Nanosecond,
    DurationSecond,
    DurationMillisecond,
    DurationMicrosecond,
    DurationNanosecond,
    Timestamp(TimeUnit, Option<String>),
    Decimal32(u8, i8),
    Decimal64(u8, i8),
    Decimal128(u8, i8),
    Decimal256(u8, i8),
    Binary,
    LargeBinary,
    BinaryView,
    FixedSizeBinary(i32),
    IntervalYearMonth,
    IntervalDayTime,
    IntervalMonthDayNano,
    Dictionary(KeyType, Box<DataType>),
    Other(String),
}

/// The texts of a [`DataType`].
pub enum DataTypeView {
    Null,
    Boolean,
    Int8,
    Int16,
    Int32,
    Int64,
    UInt8,
    UInt16,
    UInt32,
    UInt64,
    Utf8,
    Utf8View,
    LargeUtf8,
    Date32,
    Date64,
    Time32Second,
    Time32Millisecond,
    Time64Microsecond,
    Time64Nanosecond,
    DurationSecond,
    DurationMillisecond,
    DurationMicrosecond,
    DurationNanosecond,
    Timestamp(TimeUnit, Option<Seq<char>>),
    Decimal32(u8, i8),
    Decimal64(u8, i8),
    Decimal128(u8, i8),
    Decimal256(u8, i8),
    Binary,
    LargeBinary,
    BinaryView,
    FixedSizeBinary(i32),
    IntervalYearMonth,
    IntervalDayTime,
    IntervalMonthDayNano,
    Dictionary(KeyType, Box<DataTypeView>),
    Other(Seq<char>),
}

/// The text of an optional time zone.
pub open spec fn zone_view(zone: Option<String>) -> Option<Seq<char>> {
    match zone {
        Some(z) => Some(z@),
        None => None,
    }
}

impl DataType {
    pub open spec fn view(&self) -> DataTypeView
        decreases self,
    {
        match *self {
            DataType::Null => DataTypeView::Null,
            DataType::Boolean => DataTypeView::Boolean,
            DataType::Int8 => DataTypeView::Int8,
            DataType::Int16 => DataTypeView::Int16,
            DataType::Int32 => DataTypeView::Int32,
            DataType::Int64 => DataTypeView::Int64,
            DataType::UInt8 => DataTypeView::UInt8,
            DataType::UInt16 => DataTypeView::UInt16,
            DataType::UInt32 => DataTypeView::UInt32,
            DataType::UInt64 => DataTypeView::UInt64,
            DataType::Utf8 => DataTypeView::Utf8,
            DataType::Utf8View => DataTypeView::Utf8View,
            DataType::LargeUtf8 => DataTypeView::LargeUtf8,
            DataType::Date32 => DataTypeView::Date32,
            DataType::Date64 => DataTypeView::Date64,
            DataType::Time32Second => DataTypeView::Time32Second,
            DataType::Time32Millisecond => DataTypeView::Time32Millisecond,
            DataType::Time64Microsecond => DataTypeView::Time64Microsecond,
            DataType::Time64Nanosecond => DataTypeView::Time64Nanosecond,
            DataType::DurationSecond => DataTypeView::DurationSecond,
            DataType::DurationMillisecond => DataTypeView::DurationMillisecond,
            DataType::DurationMicrosecond => DataTypeView::DurationMicrosecond,
            DataType::DurationNanosecond => DataTypeView::DurationNanosecond,
            DataType::Timestamp(unit, zone) => DataTypeView::Timestamp(unit, zone_view(zone)),
            DataType::Decimal32(p, s) => DataTypeView::Decimal32(p, s),
            DataType::Decimal64(p, s) => DataTypeView::Decimal64(p, s),
            DataType::Decimal128(p, s) => DataTypeView::Decimal128(p, s),
            DataType::Decimal256(p, s) => DataTypeView::Decimal256(p, s),
            DataType::Binary => DataTypeView::Binary,
            DataType::LargeBinary => DataTypeView::LargeBinary,
            DataType::BinaryView => DataTypeView::BinaryView,
            DataType::FixedSizeBinary(n) => DataTypeView::FixedSizeBinary(n),
            DataType::IntervalYearMonth => DataTypeView::IntervalYearMonth,
            DataType::IntervalDayTime => DataTypeView::IntervalDayTime,
            DataType::IntervalMonthDayNano => DataTypeView::IntervalMonthDayNano,
            DataType::Dictionary(key, t) => DataTypeView::Dictionary(key, Box::new((*t).view())),
            DataType::Other(name) => DataTypeView::Other(name@),
        }
    }
}

fn clone_zone(zone: &Option<String>) -> (r: Option<String>)
    ensures
        zone_view(r) == zone_view(*zone),
{
    match zone {
        Some(z) => Some(z.clone()),
        None => None,
    }
}

fn same_zone(a: &Option<String>, b: &Option<String>) -> (r: bool)
    ensures
        r == (zone_view(*a) == zone_view(*b)),
{
    match (a, b) {
        (None, None) => true,
        (Some(x), Some(y)) => *x == *y,
        _ => false,
    }
}

impl Clone for DataType {
    fn clone(&self) -> (r: Self)
        ensures
            r@ == self@,
        decreases self,
    {
        match self {
            DataType::Null => DataType::Null,
            DataType::Boolean => DataType::Boolean,
            DataType::Int8 => DataType::Int8,
            DataType::Int16 => DataType::Int16,
            DataType::Int32 => DataType::Int32,
            DataType::Int64 => DataType::Int64,
            DataType::UInt8 => DataType::UInt8,
            DataType::UInt16 => DataType::UInt16,
            DataType::UInt32 => DataType::UInt32,
            DataType::UInt64 => DataType::UInt64,
            DataType::Utf8 => DataType::Utf8,
            DataType::Utf8View => DataType::Utf8View,
            DataType::LargeUtf8 => DataType::LargeUtf8,
            DataType::Date32 => DataType::Date32,
            DataType::Date64 => DataType::Date64,
            DataType::Time32Second => DataType::Time32Second,
            DataType::Time32Millisecond => DataType::Time32Millisecond,
            DataType::Time64Microsecond => DataType::Time64Microsecond,
            DataType::Time64Nanosecond => DataType::Time64Nanosecond,
            DataType::DurationSecond => DataType::DurationSecond,
            DataType::DurationMillisecond => DataType::DurationMillisecond,
            DataType::DurationMicrosecond => DataType::DurationMicrosecond,
            DataType::DurationNanosecond => DataType::DurationNanosecond,
            DataType::Timestamp(unit, zone) => DataType::Timestamp(*unit, clone_zone(zone)),
            DataType::Decimal32(p, s) => DataType::Decimal32(*p, *s),
            DataType::Decimal64(p, s) => DataType::Decimal64(*p, *s),
            DataType::Decimal128(p, s) => DataType::Decimal128(*p, *s),
            DataType::Decimal256(p, s) => DataType::Decimal256(*p, *s),
            DataType::Binary => DataType::Binary,
            DataType::LargeBinary => DataType::LargeBinary,
            DataType::BinaryView => DataType::BinaryView,
            DataType::FixedSizeBinary(n) => DataType::FixedSizeBinary(*n),
            DataType::IntervalYearMonth => DataType::IntervalYearMonth,
            DataType::IntervalDayTime => DataType::IntervalDayTime,
            DataType::IntervalMonthDayNano => DataType::IntervalMonthDayNano,
            DataType::Dictionary(key, t) => DataType::Dictionary(*key, Box::new((**t).clone())),
            DataType::Other(name) => DataType::Other(name.clone()),
        }
    }
}

/// The precision and the scale of a decimal type are such as decimals of at most
/// so many digits have.
pub open spec fn decimal_known(precision: u8, scale: i8, digits: int) -> bool {
    1 <= precision <= digits && scale <= precision
}

impl DataTypeView {
    /// The values of the type are looked into. A decimal type has a precision
    /// that its decimals can have, and a scale that fits it; bytes of a fixed
    /// size are some.
    pub open spec fn known(self) -> bool
        decreases self,
    {
        match self {
            DataTypeView::Other(_) => false,
            DataTypeView::Decimal32(p, s) => decimal_known(p, s, 9),
            DataTypeView::Decimal64(p, s) => decimal_known(p, s, 18),
            DataTypeView::Decimal128(p, s) => decimal_known(p, s, 38),
            DataTypeView::Decimal256(p, s) => decimal_known(p, s, 76),
            DataTypeView::FixedSizeBinary(n) => n > 0,
            DataTypeView::Dictionary(_, t) => (*t).known(),
            _ => true,
        }
    }

    /// The type of what a value of the type holds: that of the values of a
    /// dictionary.
    pub open spec fn plain(self) -> DataTypeView
        decreases self,
    {
        match self {
            DataTypeView::Dictionary(_, t) => (*t).plain(),
            _ => self,
        }
    }

    pub open spec fn unsigned(self) -> bool {
        self is UInt8 || self is UInt16 || self is UInt32 || self is UInt64
    }

    pub open spec fn decimal(self) -> bool {
        self is Decimal32 || self is Decimal64 || self is Decimal128 || self is Decimal256
    }

    /// The values of the type are dates or times.
    pub open spec fn temporal(self) -> bool {
        self is Date32 || self is Date64 || self is Time32Second || self is Time32Millisecond || self
            is Time64Microsecond || self is Time64Nanosecond || self is Timestamp
    }

    /// The values of the type are integers, or stand for integers, and each
    /// but the greatest has a next one.
    pub open spec fn discrete(self) -> bool {
        &&& self.integral()
        &&& !self.decimal()
        &&& !(self.temporal() && !(self is Timestamp))
    }

    /// The values of the type are integers, or stand for integers.
    pub open spec fn integral(self) -> bool {
        !(self is Null || self is Boolean || self.textual() || self.binary() || self.spanning()
            || self is Dictionary || self is Other)
    }

    pub open spec fn textual(self) -> bool {
        self is Utf8 || self is Utf8View || self is LargeUtf8
    }

    /// The values of the type are bytes.
    pub open spec fn binary(self) -> bool {
        self is Binary || self is LargeBinary || self is BinaryView || self is FixedSizeBinary
    }

    /// The values of the type are spans of time with more than one part.
    pub open spec fn spanning(self) -> bool {
        self is IntervalDayTime || self is IntervalMonthDayNano
    }

    /// The least part of a day that a span of the type can have.
    pub open spec fn least_part(self) -> int {
        if self is IntervalDayTime {
            i32::MIN as int
        } else {
            i64::MIN as int
        }
    }

    /// The greatest part of a day that a span of the type can have.
    pub open spec fn greatest_part(self) -> int {
        if self is IntervalDayTime {
            i32::MAX as int
        } else {
            i64::MAX as int
        }
    }

    /// The least integer of an integral type.
    pub open spec fn min(self) -> int {
        match self {
            DataTypeView::Int8 => i8::MIN as int,
            DataTypeView::Int16 => i16::MIN as int,
            DataTypeView::Int32 | DataTypeView::Date32 | DataTypeView::Time32Second
            | DataTypeView::Time32Millisecond | DataTypeView::IntervalYearMonth => i32::MIN as int,
            DataTypeView::Decimal32(_, _) => i32::MIN as int,
            DataTypeView::Decimal128(_, _) => i128::MIN as int,
            DataTypeView::Decimal256(_, _) => i128::MIN * half(),
            _ => if self.unsigned() {
                0
            } else {
                i64::MIN as int
            },
        }
    }

    /// The greatest integer of an integral type.
    pub open spec fn max(self) -> int {
        match self {
            DataTypeView::Int8 => i8::MAX as int,
            DataTypeView::Int16 => i16::MAX as int,
            DataTypeView::Int32 | DataTypeView::Date32 | DataTypeView::Time32Second
            | DataTypeView::Time32Millisecond | DataTypeView::IntervalYearMonth => i32::MAX as int,
            DataTypeView::UInt8 => u8::MAX as int,
            DataTypeView::UInt16 => u16::MAX as int,
            DataTypeView::UInt32 => u32::MAX as int,
            DataTypeView::UInt64 => u64::MAX as int,
            DataTypeView::Decimal32(_, _) => i32::MAX as int,
            DataTypeView::Decimal128(_, _) => i128::MAX as int,
            DataTypeView::Decimal256(_, _) => i128::MAX * half() + half() - 1,
            _ => i64::MAX as int,
        }
    }
}

/// Whether the precision and the scale of a decimal type are such as decimals of
/// at most so many digits have.
fn is_decimal_known(precision: u8, scale: i8, digits: i16) -> (r: bool)
    requires
        0 <= digits <= 100,
    ensures
        r == decimal_known(precision, scale, digits as int),
{
    let (p, s) = (precision as i16, scale as i16);
    1 <= p && p <= digits && s <= p
}

impl DataType {
    /// Whether the values of the type are looked into.
    pub fn known(&self) -> (r: bool)
        ensures
            r == self@.known(),
        decreases self,
    {
        match self {
            DataType::Other(_) => false,
            DataType::Decimal32(p, s) => is_decimal_known(*p, *s, 9),
            DataType::Decimal64(p, s) => is_decimal_known(*p, *s, 18),
            DataType::Decimal128(p, s) => is_decimal_known(*p, *s, 38),
            DataType::Decimal256(p, s) => is_decimal_known(*p, *s, 76),
            DataType::FixedSizeBinary(n) => *n > 0,
            DataType::Dictionary(_, t) => (**t).known(),
            _ => true,
        }
    }

    /// Whether the two types are equal.
    pub fn same(&self, other: &Self) -> (r: bool)
        ensures
            r == (self@ == other@),
        decreases self,
    {
        match (self, other) {
            (DataType::Null, DataType::Null) => true,
            (DataType::Boolean, DataType::Boolean) => true,
            (DataType::Int8, DataType::Int8) => true,
            (DataType::Int16, DataType::Int16) => true,
            (DataType::Int32, DataType::Int32) => true,
            (DataType::Int64, DataType::Int64) => true,
            (DataType::UInt8, DataType::UInt8) => true,
            (DataType::UInt16, DataType::UInt16) => true,
            (DataType::UInt32, DataType::UInt32) => true,
            (DataType::UInt64, DataType::UInt64) => true,
            (DataType::Utf8, DataType::Utf8) => true,
            (DataType::Utf8View, DataType::Utf8View) => true,
            (DataType::LargeUtf8, DataType::LargeUtf8) => true,
            (DataType::Date32, DataType::Date32) => true,
            (DataType::Date64, DataType::Date64) => true,
            (DataType::Time32Second, DataType::Time32Second) => true,
            (DataType::Time32Millisecond, DataType::Time32Millisecond) => true,
            (DataType::Time64Microsecond, DataType::Time64Microsecond) => true,
            (DataType::Time64Nanosecond, DataType::Time64Nanosecond) => true,
            (DataType::DurationSecond, DataType::DurationSecond) => true,
            (DataType::DurationMillisecond, DataType::DurationMillisecond) => true,
            (DataType::DurationMicrosecond, DataType::DurationMicrosecond) => true,
            (DataType::DurationNanosecond, DataType::DurationNanosecond) => true,
            (DataType::Timestamp(u, a), DataType::Timestamp(v, b)) => *u == *v && same_zone(a, b),
            (DataType::Decimal32(p, s), DataType::Decimal32(q, t)) => *p == *q && *s == *t,
            (DataType::Decimal64(p, s), DataType::Decimal64(q, t)) => *p == *q && *s == *t,
            (DataType::Decimal128(p, s), DataType::Decimal128(q, t)) => *p == *q && *s == *t,
            (DataType::Decimal256(p, s), DataType::Decimal256(q, t)) => *p == *q && *s == *t,
            (DataType::Binary, DataType::Binary) => true,
            (DataType::LargeBinary, DataType::LargeBinary) => true,
            (DataType::BinaryView, DataType::BinaryView) => true,
            (DataType::FixedSizeBinary(m), DataType::FixedSizeBinary(n)) => *m == *n,
            (DataType::IntervalYearMonth, DataType::IntervalYearMonth) => true,
            (DataType::IntervalDayTime, DataType::IntervalDayTime) => true,
            (DataType::IntervalMonthDayNano, DataType::IntervalMonthDayNano) => true,
            (DataType::Dictionary(k, t), DataType::Dictionary(l, u)) => *k == *l && (**t).same(
                &**u,
            ),
            (DataType::Other(a), DataType::Other(b)) => *a == *b,
            _ => false,
        }
    }
}

/// One value of some type, or the null of that type.
///
/// `Other` is a value of a type that is not looked into: the type's name, and
/// a number by which the value is found again.
#[derive(Debug, PartialEq, Eq, Hash)]
pub enum ScalarValue {
    Null,
    Boolean(Option<bool>),
    Int8(Option<i8>),
    Int16(Option<i16>),
    Int32(Option<i32>),
    Int64(Option<i64>),
    UInt8(Option<u8>),
    UInt16(Option<u16>),
    UInt32(Option<u32>),
    UInt64(Option<u64>),
    Utf8(Option<String>),
    Utf8View(Option<String>),
    LargeUtf8(Option<String>),
    Date32(Option<i32>),
    Date64(Option<i64>),
    Time32Second(Option<i32>),
    Time32Millisecond(Option<i32>),
    Time64Microsecond(Option<i64>),
    Time64Nanosecond(Option<i64>),
    DurationSecond(Option<i64>),
    DurationMillisecond(Option<i64>),
    DurationMicrosecond(Option<i64>),
    DurationNanosecond(Option<i64>),
    TimestampSecond(Option<i64>, Option<String>),
    TimestampMillisecond(Option<i64>, Option<String>),
    TimestampMicrosecond(Option<i64>, Option<String>),
    TimestampNanosecond(Option<i64>, Option<String>),
    Decimal32(Option<i32>, u8, i8),
    Decimal64(Option<i64>, u8, i8),
    Decimal128(Option<i128>, u8, i8),
    Decimal256(Option<Int256>, u8, i8),
    Binary(Option<Vec<u8>>),
    LargeBinary(Option<Vec<u8>>),
    BinaryView(Option<Vec<u8>>),
    FixedSizeBinary(i32, Option<Vec<u8>>),
    IntervalYearMonth(Option<i32>),
    IntervalDayTime(Option<DayTime>),
    IntervalMonthDayNano(Option<MonthDayNano>),
    /// A value of a dictionary, by the type of its keys and what it stands for.
    Dictionary(KeyType, Box<ScalarValue>),
    Other(String, Option<u64>),
}

/// What a value that is not null holds.
pub enum Datum {
    Boolean(bool),
    Integer(int),
    Text(Seq<char>),
    Bytes(Seq<u8>),
    /// Months, days, and parts of a day.
    Span(int, int, int),
    Opaque(u64),
}

/// A scalar value as its type and what it holds; a null holds nothing.
pub struct ScalarView {
    pub data_type: DataTypeView,
    pub value: Option<Datum>,
}

pub open spec fn boolean_datum(x: Option<bool>) -> Option<Datum> {
    match x {
        Some(b) => Some(Datum::Boolean(b)),
        None => None,
    }
}

pub open spec fn text_datum(x: Option<String>) -> Option<Datum> {
    match x {
        Some(s) => Some(Datum::Text(s@)),
        None => None,
    }
}

pub open spec fn bytes_datum(x: Option<Vec<u8>>) -> Option<Datum> {
    match x {
        Some(b) => Some(Datum::Bytes(b@)),
        None => None,
    }
}

impl ScalarValue {
    pub open spec fn view(&self) -> ScalarView
        decreases self,
    {
        match *self {
            ScalarValue::Null => ScalarView { data_type: DataTypeView::Null, value: None },
            ScalarValue::Boolean(x) => ScalarView {
                data_type: DataTypeView::Boolean,
                value: boolean_datum(x),
            },
            ScalarValue::Int8(x) => ScalarView {
                data_type: DataTypeView::Int8,
                value: match x {
                    Some(i) => Some(Datum::Integer(i as int)),
                    None => None,
                },
            },
            ScalarValue::Int16(x) => ScalarView {
                data_type: DataTypeView::Int16,
                value: match x {
                    Some(i) => Some(Datum::Integer(i as int)),
                    None => None,
                },
            },
            ScalarValue::Int32(x) => ScalarView {
                data_type: DataTypeView::Int32,
                value: match x {
                    Some(i) => Some(Datum::Integer(i as int)),
                    None => None,
                },
            },
            ScalarValue::Int64(x) => ScalarView {
                data_type: DataTypeView::Int64,
                value: match x {
                    Some(i) => Some(Datum::Integer(i as int)),
                    None => None,
                },
            },
            ScalarValue::UInt8(x) => ScalarView {
                data_type: DataTypeView::UInt8,
                value: match x {
                    Some(i) => Some(Datum::Integer(i as int)),
                    None => None,
                },
            },
            ScalarValue::UInt16(x) => ScalarView {
                data_type: DataTypeView::UInt16,
                value: match x {
                    Some(i) => Some(Datum::Integer(i as int)),
                    None => None,
                },
            },
            ScalarValue::UInt32(x) => ScalarView {
                data_type: DataTypeView::UInt32,
                value: match x {
                    Some(i) => Some(Datum::Integer(i as int)),
                    None => None,
                },
            },
            ScalarValue::UInt64(x) => ScalarView {
                data_type: DataTypeView::UInt64,
                value: match x {
                    Some(i) => Some(Datum::Integer(i as int)),
                    None => None,
                },
            },
            ScalarValue::Date32(x) => ScalarView {
                data_type: DataTypeView::Date32,
                value: match x {
                    Some(i) => Some(Datum::Integer(i as int)),
                    None => None,
                },
            },
            ScalarValue::Date64(x) => ScalarView {
                data_type: DataTypeView::Date64,
                value: match x {
                    Some(i) => Some(Datum::Integer(i as int)),
                    None => None,
                },
            },
            ScalarValue::Time32Second(x) => ScalarView {
                data_type: DataTypeView::Time32Second,
                value: match x {
                    Some(i) => Some(Datum::Integer(i as int)),
                    None => None,
                },
            },
            ScalarValue::Time32Millisecond(x) => ScalarView {
                data_type: DataTypeView::Time32Millisecond,
                value: match x {
                    Some(i) => Some(Datum::Integer(i as int)),
                    None => None,
                },
            },
            ScalarValue::Time64Microsecond(x) => ScalarView {
                data_type: DataTypeView::Time64Microsecond,
                value: match x {
                    Some(i) => Some(Datum::Integer(i as int)),
                    None => None,
                },
            },
            ScalarValue::Time64Nanosecond(x) => ScalarView {
                data_type: DataTypeView::Time64Nanosecond,
                value: match x {
                    Some(i) => Some(Datum::Integer(i as int)),
                    None => None,
                },
            },
            ScalarValue::DurationSecond(x) => ScalarView {
                data_type: DataTypeView::DurationSecond,
                value: match x {
                    Some(i) => Some(Datum::Integer(i as int)),
                    None => None,
                },
            },
            ScalarValue::DurationMillisecond(x) => ScalarView {
                data_type: DataTypeView::DurationMillisecond,
                value: match x {
                    Some(i) => Some(Datum::Integer(i as int)),
                    None => None,
                },
            },
            ScalarValue::DurationMicrosecond(x) => ScalarView {
                data_type: DataTypeView::DurationMicrosecond,
                value: match x {
                    Some(i) => Some(Datum::Integer(i as int)),
                    None => None,
                },
            },
            ScalarValue::DurationNanosecond(x) => ScalarView {
                data_type: DataTypeView::DurationNanosecond,
                value: match x {
                    Some(i) => Some(Datum::Integer(i as int)),
                    None => None,
                },
            },
            ScalarValue::Utf8(x) => ScalarView {
                data_type: DataTypeView::Utf8,
                value: text_datum(x),
            },
            ScalarValue::Utf8View(x) => ScalarView {
                data_type: DataTypeView::Utf8View,
                value: text_datum(x),
            },
            ScalarValue::LargeUtf8(x) => ScalarView {
                data_type: DataTypeView::LargeUtf8,
                value: text_datum(x),
            },
            ScalarValue::TimestampSecond(x, zone) => ScalarView {
                data_type: DataTypeView::Timestamp(TimeUnit::Second, zone_view(zone)),
                value: match x {
                    Some(i) => Some(Datum::Integer(i as int)),
                    None => None,
                },
            },
            ScalarValue::TimestampMillisecond(x, zone) => ScalarView {
                data_type: DataTypeView::Timestamp(TimeUnit::Millisecond, zone_view(zone)),
                value: match x {
                    Some(i) => Some(Datum::Integer(i as int)),
                    None => None,
                },
            },
            ScalarValue::TimestampMicrosecond(x, zone) => ScalarView {
                data_type: DataTypeView::Timestamp(TimeUnit::Microsecond, zone_view(zone)),
                value: match x {
                    Some(i) => Some(Datum::Integer(i as int)),
                    None => None,
                },
            },
            ScalarValue::TimestampNanosecond(x, zone) => ScalarView {
                data_type: DataTypeView::Timestamp(TimeUnit::Nanosecond, zone_view(zone)),
                value: match x {
                    Some(i) => Some(Datum::Integer(i as int)),
                    None => None,
                },
            },
            ScalarValue::Decimal32(x, p, s) => ScalarView {
                data_type: DataTypeView::Decimal32(p, s),
                value: match x {
                    Some(i) => Some(Datum::Integer(i as int)),
                    None => None,
                },
            },
            ScalarValue::Decimal64(x, p, s) => ScalarView {
                data_type: DataTypeView::Decimal64(p, s),
                value: match x {
                    Some(i) => Some(Datum::Integer(i as int)),
                    None => None,
                },
            },
            ScalarValue::Decimal128(x, p, s) => ScalarView {
                data_type: DataTypeView::Decimal128(p, s),
                value: match x {
                    Some(i) => Some(Datum::Integer(i as int)),
                    None => None,
                },
            },
            ScalarValue::Decimal256(x, p, s) => ScalarView {
                data_type: DataTypeView::Decimal256(p, s),
                value: match x {
                    Some(i) => Some(Datum::Integer(i@)),
                    None => None,
                },
            },
            ScalarValue::Binary(x) => ScalarView {
                data_type: DataTypeView::Binary,
                value: bytes_datum(x),
            },
            ScalarValue::LargeBinary(x) => ScalarView {
                data_type: DataTypeView::LargeBinary,
                value: bytes_datum(x),
            },
            ScalarValue::BinaryView(x) => ScalarView {
                data_type: DataTypeView::BinaryView,
                value: bytes_datum(x),
            },
            ScalarValue::FixedSizeBinary(n, x) => ScalarView {
                data_type: DataTypeView::FixedSizeBinary(n),
                value: bytes_datum(x),
            },
            ScalarValue::IntervalYearMonth(x) => ScalarView {
                data_type: DataTypeView::IntervalYearMonth,
                value: match x {
                    Some(i) => Some(Datum::Integer(i as int)),
                    None => None,
                },
            },
            ScalarValue::IntervalDayTime(x) => ScalarView {
                data_type: DataTypeView::IntervalDayTime,
                value: match x {
                    Some(i) => Some(Datum::Span(0, i.days as int, i.milliseconds as int)),
                    None => None,
                },
            },
            ScalarValue::IntervalMonthDayNano(x) => ScalarView {
                data_type: DataTypeView::IntervalMonthDayNano,
                value: match x {
                    Some(i) => Some(
                        Datum::Span(i.months as int, i.days as int, i.nanoseconds as int),
                    ),
                    None => None,
                },
            },
            ScalarValue::Dictionary(key, x) => ScalarView {
                data_type: DataTypeView::Dictionary(key, Box::new((*x).view().data_type)),
                value: (*x).view().value,
            },
            ScalarValue::Other(name, x) => ScalarView {
                data_type: DataTypeView::Other(name@),
                value: match x {
                    Some(n) => Some(Datum::Opaque(n)),
                    None => None,
                },
            },
        }
    }
}

fn clone_text(x: &Option<String>) -> (r: Option<String>)
    ensures
        text_datum(r) == text_datum(*x),
{
    match x {
        Some(s) => Some(s.clone()),
        None => None,
    }
}

fn same_text(a: &Option<String>, b: &Option<String>) -> (r: bool)
    ensures
        r == (text_datum(*a) == text_datum(*b)),
{
    match (a, b) {
        (None, None) => true,
        (Some(x), Some(y)) => *x == *y,
        _ => false,
    }
}

fn clone_bytes(x: &Option<Vec<u8>>) -> (r: Option<Vec<u8>>)
    ensures
        bytes_datum(r) == bytes_datum(*x),
{
    match x {
        Some(b) => {
            let mut r: Vec<u8> = Vec::new();
            for i in 0..b.len()
                invariant
                    r@ == b@.take(i as int),
            {
                r.push(b[i]);
                assert(r@ =~= b@.take(i + 1));
            }
            assert(b@.take(b@.len() as int) =~= b@);
            Some(r)
        },
        None => None,
    }
}

fn equal_bytes(x: &Vec<u8>, y: &Vec<u8>) -> (r: bool)
    ensures
        r == (x@ == y@),
{
    if x.len() != y.len() {
        return false;
    }
    for i in 0..x.len()
        invariant
            x@.len() == y@.len(),
            forall|k: int| 0 <= k < i ==> #[trigger] x@[k] == y@[k],
    {
        if x[i] != y[i] {
            assert(x@[i as int] != y@[i as int]);
            return false;
        }
    }
    assert(x@ =~= y@);
    true
}

fn same_bytes(a: &Option<Vec<u8>>, b: &Option<Vec<u8>>) -> (r: bool)
    ensures
        r == (bytes_datum(*a) == bytes_datum(*b)),
{
    match (a, b) {
        (None, None) => true,
        (Some(x), Some(y)) => equal_bytes(x, y),
        _ => false,
    }
}

impl Clone for ScalarValue {
    fn clone(&self) -> (r: Self)
        ensures
            r@ == self@,
        decreases self,
    {
        match self {
            ScalarValue::Null => ScalarValue::Null,
            ScalarValue::Boolean(x) => ScalarValue::Boolean(*x),
            ScalarValue::Int8(x) => ScalarValue::Int8(*x),
            ScalarValue::Int16(x) => ScalarValue::Int16(*x),
            ScalarValue::Int32(x) => ScalarValue::Int32(*x),
            ScalarValue::Int64(x) => ScalarValue::Int64(*x),
            ScalarValue::UInt8(x) => ScalarValue::UInt8(*x),
            ScalarValue::UInt16(x) => ScalarValue::UInt16(*x),
            ScalarValue::UInt32(x) => ScalarValue::UInt32(*x),
            ScalarValue::UInt64(x) => ScalarValue::UInt64(*x),
            ScalarValue::Date32(x) => ScalarValue::Date32(*x),
            ScalarValue::Date64(x) => ScalarValue::Date64(*x),
            ScalarValue::Time32Second(x) => ScalarValue::Time32Second(*x),
            ScalarValue::Time32Millisecond(x) => ScalarValue::Time32Millisecond(*x),
            ScalarValue::Time64Microsecond(x) => ScalarValue::Time64Microsecond(*x),
            ScalarValue::Time64Nanosecond(x) => ScalarValue::Time64Nanosecond(*x),
            ScalarValue::DurationSecond(x) => ScalarValue::DurationSecond(*x),
            ScalarValue::DurationMillisecond(x) => ScalarValue::DurationMillisecond(*x),
            ScalarValue::DurationMicrosecond(x) => ScalarValue::DurationMicrosecond(*x),
            ScalarValue::DurationNanosecond(x) => ScalarValue::DurationNanosecond(*x),
            ScalarValue::Utf8(x) => ScalarValue::Utf8(clone_text(x)),
            ScalarValue::Utf8View(x) => ScalarValue::Utf8View(clone_text(x)),
            ScalarValue::LargeUtf8(x) => ScalarValue::LargeUtf8(clone_text(x)),
            ScalarValue::TimestampSecond(x, zone) => ScalarValue::TimestampSecond(
                *x,
                clone_zone(zone),
            ),
            ScalarValue::TimestampMillisecond(x, zone) => ScalarValue::TimestampMillisecond(
                *x,
                clone_zone(zone),
            ),
            ScalarValue::TimestampMicrosecond(x, zone) => ScalarValue::TimestampMicrosecond(
                *x,
                clone_zone(zone),
            ),
            ScalarValue::TimestampNanosecond(x, zone) => ScalarValue::TimestampNanosecond(
                *x,
                clone_zone(zone),
            ),
            ScalarValue::Decimal32(x, p, s) => ScalarValue::Decimal32(*x, *p, *s),
            ScalarValue::Decimal64(x, p, s) => ScalarValue::Decimal64(*x, *p, *s),
            ScalarValue::Decimal128(x, p, s) => ScalarValue::Decimal128(*x, *p, *s),
            ScalarValue::Decimal256(x, p, s) => ScalarValue::Decimal256(*x, *p, *s),
            ScalarValue::Binary(x) => ScalarValue::Binary(clone_bytes(x)),
            ScalarValue::LargeBinary(x) => ScalarValue::LargeBinary(clone_bytes(x)),
            ScalarValue::BinaryView(x) => ScalarValue::BinaryView(clone_bytes(x)),
            ScalarValue::FixedSizeBinary(n, x) => ScalarValue::FixedSizeBinary(*n, clone_bytes(x)),
            ScalarValue::IntervalYearMonth(x) => ScalarValue::IntervalYearMonth(*x),
            ScalarValue::IntervalDayTime(x) => ScalarValue::IntervalDayTime(*x),
            ScalarValue::IntervalMonthDayNano(x) => ScalarValue::IntervalMonthDayNano(*x),
            ScalarValue::Dictionary(key, x) => ScalarValue::Dictionary(
                *key,
                Box::new((**x).clone()),
            ),
            ScalarValue::Other(name, x) => ScalarValue::Other(name.clone(), *x),
        }
    }
}

impl Datum {
    /// The order of what two values of one type hold.
    pub open spec fn lt(self, other: Datum) -> bool {
        match (self, other) {
            (Datum::Boolean(a), Datum::Boolean(b)) => !a && b,
            (Datum::Integer(a), Datum::Integer(b)) => a < b,
            (Datum::Text(a), Datum::Text(b)) => text_lt(a, b),
            (Datum::Bytes(a), Datum::Bytes(b)) => bytes_lt(a, b),
            (Datum::Span(m, d, p), Datum::Span(n, e, q)) => m < n || (m == n && (d < e || (d == e
                && p < q))),
            _ => false,
        }
    }

    pub open spec fn le(self, other: Datum) -> bool {
        self == other || self.lt(other)
    }
}

impl ScalarView {
    pub open spec fn is_null(self) -> bool {
        self.value is None
    }

    /// What the value holds is of its type.
    pub open spec fn well_typed(self) -> bool {
        let t = self.data_type.plain();
        match self.value {
            None => true,
            Some(Datum::Boolean(_)) => t is Boolean,
            Some(Datum::Integer(i)) => t.integral() && t.min() <= i <= t.max(),
            Some(Datum::Text(_)) => t.textual(),
            Some(Datum::Bytes(_)) => t.binary(),
            Some(Datum::Span(months, days, parts)) => {
                &&& t.spanning()
                &&& i32::MIN <= months <= i32::MAX
                &&& t is IntervalDayTime ==> months == 0
                &&& i32::MIN <= days <= i32::MAX
                &&& t.least_part() <= parts <= t.greatest_part()
            },
            Some(Datum::Opaque(_)) => t is Other,
        }
    }

    /// Both values are there, and the first is at most the second.
    pub open spec fn le(self, other: Self) -> bool {
        !self.is_null() && !other.is_null() && self.value->0.le(other.value->0)
    }

    /// Both values are there, and the first is less than the second.
    pub open spec fn lt(self, other: Self) -> bool {
        !self.is_null() && !other.is_null() && self.value->0.lt(other.value->0)
    }
}

pub proof fn lemma_datum_lt_irreflexive(a: Datum)
    ensures
        !a.lt(a),
{
    match a {
        Datum::Text(s) => lemma_text_lt_irreflexive(s),
        Datum::Bytes(s) => lemma_bytes_lt_irreflexive(s),
        _ => {},
    }
}

pub proof fn lemma_datum_lt_transitive(a: Datum, b: Datum, c: Datum)
    requires
        a.lt(b),
        b.lt(c),
    ensures
        a.lt(c),
{
    match (a, b, c) {
        (Datum::Text(x), Datum::Text(y), Datum::Text(z)) => lemma_text_lt_transitive(x, y, z),
        (Datum::Bytes(x), Datum::Bytes(y), Datum::Bytes(z)) => lemma_bytes_lt_transitive(x, y, z),
        _ => {},
    }
}

/// Two values of one type that is looked into are equal, or one is less than
/// the other.
pub proof fn lemma_scalar_lt_total(a: ScalarView, b: ScalarView)
    requires
        a.data_type == b.data_type,
        a.data_type.known(),
        a.well_typed(),
        b.well_typed(),
        !a.is_null(),
        !b.is_null(),
    ensures
        a.lt(b) || a == b || b.lt(a),
        !(a.lt(b) && b.lt(a)),
        !(a.lt(b) && a == b),
{
    let (x, y) = (a.value->0, b.value->0);
    lemma_known_plain(a.data_type);
    match (x, y) {
        (Datum::Text(s), Datum::Text(t)) => lemma_text_lt_total(s, t),
        (Datum::Bytes(s), Datum::Bytes(t)) => lemma_bytes_lt_total(s, t),
        _ => {},
    }
    lemma_datum_lt_irreflexive(x);
    if x.lt(y) && y.lt(x) {
        lemma_datum_lt_transitive(x, y, x);
    }
}

/// What a value of a type that is looked into holds is looked into.
pub proof fn lemma_known_plain(t: DataTypeView)
    requires
        t.known(),
    ensures
        t.plain().known(),
        !(t.plain() is Dictionary),
    decreases t,
{
    if let DataTypeView::Dictionary(_, u) = t {
        lemma_known_plain(*u);
    }
}

/// The null of a type.
pub open spec fn null_of(data_type: DataTypeView) -> ScalarView {
    ScalarView { data_type, value: None }
}

/// What a scalar value holds is of its type.
pub proof fn lemma_scalar_well_typed(v: ScalarValue)
    ensures
        v@.well_typed(),
    decreases v,
{
    match v {
        ScalarValue::Null => {},
        ScalarValue::Boolean(_) => {},
        ScalarValue::Int8(_) => {},
        ScalarValue::Int16(_) => {},
        ScalarValue::Int32(_) => {},
        ScalarValue::Int64(_) => {},
        ScalarValue::UInt8(_) => {},
        ScalarValue::UInt16(_) => {},
        ScalarValue::UInt32(_) => {},
        ScalarValue::UInt64(_) => {},
        ScalarValue::Utf8(_) => {},
        ScalarValue::Utf8View(_) => {},
        ScalarValue::LargeUtf8(_) => {},
        ScalarValue::Date32(_) => {},
        ScalarValue::Date64(_) => {},
        ScalarValue::Time32Second(_) => {},
        ScalarValue::Time32Millisecond(_) => {},
        ScalarValue::Time64Microsecond(_) => {},
        ScalarValue::Time64Nanosecond(_) => {},
        ScalarValue::DurationSecond(_) => {},
        ScalarValue::DurationMillisecond(_) => {},
        ScalarValue::DurationMicrosecond(_) => {},
        ScalarValue::DurationNanosecond(_) => {},
        ScalarValue::TimestampSecond(_, _) => {},
        ScalarValue::TimestampMillisecond(_, _) => {},
        ScalarValue::TimestampMicrosecond(_, _) => {},
        ScalarValue::TimestampNanosecond(_, _) => {},
        ScalarValue::Decimal32(_, _, _) => {},
        ScalarValue::Decimal64(_, _, _) => {},
        ScalarValue::Decimal128(_, _, _) => {},
        ScalarValue::Decimal256(_, _, _) => {},
        ScalarValue::Binary(_) => {},
        ScalarValue::LargeBinary(_) => {},
        ScalarValue::BinaryView(_) => {},
        ScalarValue::FixedSizeBinary(_, _) => {},
        ScalarValue::IntervalYearMonth(_) => {},
        ScalarValue::IntervalDayTime(_) => {},
        ScalarValue::IntervalMonthDayNano(_) => {},
        ScalarValue::Dictionary(_, x) => {
            lemma_scalar_well_typed(*x);
        },
        ScalarValue::Other(_, _) => {},
    }
}

impl ScalarValue {
    /// The type of the value.
    pub fn data_type(&self) -> (r: DataType)
        ensures
            r@ == self@.data_type,
        decreases self,
    {
        match self {
            ScalarValue::Null => DataType::Null,
            ScalarValue::Boolean(_) => DataType::Boolean,
            ScalarValue::Int8(_) => DataType::Int8,
            ScalarValue::Int16(_) => DataType::Int16,
            ScalarValue::Int32(_) => DataType::Int32,
            ScalarValue::Int64(_) => DataType::Int64,
            ScalarValue::UInt8(_) => DataType::UInt8,
            ScalarValue::UInt16(_) => DataType::UInt16,
            ScalarValue::UInt32(_) => DataType::UInt32,
            ScalarValue::UInt64(_) => DataType::UInt64,
            ScalarValue::Date32(_) => DataType::Date32,
            ScalarValue::Date64(_) => DataType::Date64,
            ScalarValue::Time32Second(_) => DataType::Time32Second,
            ScalarValue::Time32Millisecond(_) => DataType::Time32Millisecond,
            ScalarValue::Time64Microsecond(_) => DataType::Time64Microsecond,
            ScalarValue::Time64Nanosecond(_) => DataType::Time64Nanosecond,
            ScalarValue::DurationSecond(_) => DataType::DurationSecond,
            ScalarValue::DurationMillisecond(_) => DataType::DurationMillisecond,
            ScalarValue::DurationMicrosecond(_) => DataType::DurationMicrosecond,
            ScalarValue::DurationNanosecond(_) => DataType::DurationNanosecond,
            ScalarValue::Utf8(_) => DataType::Utf8,
            ScalarValue::Utf8View(_) => DataType::Utf8View,
            ScalarValue::LargeUtf8(_) => DataType::LargeUtf8,
            ScalarValue::TimestampSecond(_, zone) => DataType::Timestamp(
                TimeUnit::Second,
                clone_zone(zone),
            ),
            ScalarValue::TimestampMillisecond(_, zone) => DataType::Timestamp(
                TimeUnit::Millisecond,
                clone_zone(zone),
            ),
            ScalarValue::TimestampMicrosecond(_, zone) => DataType::Timestamp(
                TimeUnit::Microsecond,
                clone_zone(zone),
            ),
            ScalarValue::TimestampNanosecond(_, zone) => DataType::Timestamp(
                TimeUnit::Nanosecond,
                clone_zone(zone),
            ),
            ScalarValue::Decimal32(_, p, s) => DataType::Decimal32(*p, *s),
            ScalarValue::Decimal64(_, p, s) => DataType::Decimal64(*p, *s),
            ScalarValue::Decimal128(_, p, s) => DataType::Decimal128(*p, *s),
            ScalarValue::Decimal256(_, p, s) => DataType::Decimal256(*p, *s),
            ScalarValue::Binary(_) => DataType::Binary,
            ScalarValue::LargeBinary(_) => DataType::LargeBinary,
            ScalarValue::BinaryView(_) => DataType::BinaryView,
            ScalarValue::FixedSizeBinary(n, _) => DataType::FixedSizeBinary(*n),
            ScalarValue::IntervalYearMonth(_) => DataType::IntervalYearMonth,
            ScalarValue::IntervalDayTime(_) => DataType::IntervalDayTime,
            ScalarValue::IntervalMonthDayNano(_) => DataType::IntervalMonthDayNano,
            ScalarValue::Dictionary(key, x) => DataType::Dictionary(
                *key,
                Box::new((**x).data_type()),
            ),
            ScalarValue::Other(name, _) => DataType::Other(name.clone()),
        }
    }

    /// Whether the value is a null.
    pub fn is_null(&self) -> (r: bool)
        ensures
            r == self@.is_null(),
        decreases self,
    {
        match self {
            ScalarValue::Null => true,
            ScalarValue::Boolean(x) => x.is_none(),
            ScalarValue::Int8(x) => x.is_none(),
            ScalarValue::Int16(x) => x.is_none(),
            ScalarValue::Int32(x) => x.is_none(),
            ScalarValue::Int64(x) => x.is_none(),
            ScalarValue::UInt8(x) => x.is_none(),
            ScalarValue::UInt16(x) => x.is_none(),
            ScalarValue::UInt32(x) => x.is_none(),
            ScalarValue::UInt64(x) => x.is_none(),
            ScalarValue::Date32(x) => x.is_none(),
            ScalarValue::Date64(x) => x.is_none(),
            ScalarValue::Time32Second(x) => x.is_none(),
            ScalarValue::Time32Millisecond(x) => x.is_none(),
            ScalarValue::Time64Microsecond(x) => x.is_none(),
            ScalarValue::Time64Nanosecond(x) => x.is_none(),
            ScalarValue::DurationSecond(x) => x.is_none(),
            ScalarValue::DurationMillisecond(x) => x.is_none(),
            ScalarValue::DurationMicrosecond(x) => x.is_none(),
            ScalarValue::DurationNanosecond(x) => x.is_none(),
            ScalarValue::Utf8(x) => x.is_none(),
            ScalarValue::Utf8View(x) => x.is_none(),
            ScalarValue::LargeUtf8(x) => x.is_none(),
            ScalarValue::TimestampSecond(x, _) => x.is_none(),
            ScalarValue::TimestampMillisecond(x, _) => x.is_none(),
            ScalarValue::TimestampMicrosecond(x, _) => x.is_none(),
            ScalarValue::TimestampNanosecond(x, _) => x.is_none(),
            ScalarValue::Decimal32(x, _, _) => x.is_none(),
            ScalarValue::Decimal64(x, _, _) => x.is_none(),
            ScalarValue::Decimal128(x, _, _) => x.is_none(),
            ScalarValue::Decimal256(x, _, _) => x.is_none(),
            ScalarValue::Binary(x) => x.is_none(),
            ScalarValue::LargeBinary(x) => x.is_none(),
            ScalarValue::BinaryView(x) => x.is_none(),
            ScalarValue::FixedSizeBinary(_, x) => x.is_none(),
            ScalarValue::IntervalYearMonth(x) => x.is_none(),
            ScalarValue::IntervalDayTime(x) => x.is_none(),
            ScalarValue::IntervalMonthDayNano(x) => x.is_none(),
            ScalarValue::Dictionary(_, x) => (**x).is_null(),
            ScalarValue::Other(_, x) => x.is_none(),
        }
    }

    /// Whether the two values are equal, time zones included.
    pub fn same(&self, other: &Self) -> (r: bool)
        ensures
            r == (self@ == other@),
        decreases self,
    {
        match (self, other) {
            (ScalarValue::Null, ScalarValue::Null) => true,
            (ScalarValue::Boolean(a), ScalarValue::Boolean(b)) => *a == *b,
            (ScalarValue::Int8(a), ScalarValue::Int8(b)) => *a == *b,
            (ScalarValue::Int16(a), ScalarValue::Int16(b)) => *a == *b,
            (ScalarValue::Int32(a), ScalarValue::Int32(b)) => *a == *b,
            (ScalarValue::Int64(a), ScalarValue::Int64(b)) => *a == *b,
            (ScalarValue::UInt8(a), ScalarValue::UInt8(b)) => *a == *b,
            (ScalarValue::UInt16(a), ScalarValue::UInt16(b)) => *a == *b,
            (ScalarValue::UInt32(a), ScalarValue::UInt32(b)) => *a == *b,
            (ScalarValue::UInt64(a), ScalarValue::UInt64(b)) => *a == *b,
            (ScalarValue::Date32(a), ScalarValue::Date32(b)) => *a == *b,
            (ScalarValue::Date64(a), ScalarValue::Date64(b)) => *a == *b,
            (ScalarValue::Time32Second(a), ScalarValue::Time32Second(b)) => *a == *b,
            (ScalarValue::Time32Millisecond(a), ScalarValue::Time32Millisecond(b)) => *a == *b,
            (ScalarValue::Time64Microsecond(a), ScalarValue::Time64Microsecond(b)) => *a == *b,
            (ScalarValue::Time64Nanosecond(a), ScalarValue::Time64Nanosecond(b)) => *a == *b,
            (ScalarValue::DurationSecond(a), ScalarValue::DurationSecond(b)) => *a == *b,
            (ScalarValue::DurationMillisecond(a), ScalarValue::DurationMillisecond(b)) => *a == *b,
            (ScalarValue::DurationMicrosecond(a), ScalarValue::DurationMicrosecond(b)) => *a == *b,
            (ScalarValue::DurationNanosecond(a), ScalarValue::DurationNanosecond(b)) => *a == *b,
            (ScalarValue::Utf8(a), ScalarValue::Utf8(b)) => same_text(a, b),
            (ScalarValue::Utf8View(a), ScalarValue::Utf8View(b)) => same_text(a, b),
            (ScalarValue::LargeUtf8(a), ScalarValue::LargeUtf8(b)) => same_text(a, b),
            (
                ScalarValue::TimestampSecond(a, y),
                ScalarValue::TimestampSecond(b, z),
            ) => *a == *b && same_zone(y, z),
            (
                ScalarValue::TimestampMillisecond(a, y),
                ScalarValue::TimestampMillisecond(b, z),
            ) => *a == *b && same_zone(y, z),
            (
                ScalarValue::TimestampMicrosecond(a, y),
                ScalarValue::TimestampMicrosecond(b, z),
            ) => *a == *b && same_zone(y, z),
            (
                ScalarValue::TimestampNanosecond(a, y),
                ScalarValue::TimestampNanosecond(b, z),
            ) => *a == *b && same_zone(y, z),
            (ScalarValue::Decimal32(a, p, s), ScalarValue::Decimal32(b, q, t)) => *a == *b && *p
                == *q && *s == *t,
            (ScalarValue::Decimal64(a, p, s), ScalarValue::Decimal64(b, q, t)) => *a == *b && *p
                == *q && *s == *t,
            (ScalarValue::Decimal128(a, p, s), ScalarValue::Decimal128(b, q, t)) => *a == *b
                && *p == *q && *s == *t,
            (ScalarValue::Decimal256(a, p, s), ScalarValue::Decimal256(b, q, t)) => *a == *b
                && *p == *q && *s == *t,
            (ScalarValue::Binary(a), ScalarValue::Binary(b)) => same_bytes(a, b),
            (ScalarValue::LargeBinary(a), ScalarValue::LargeBinary(b)) => same_bytes(a, b),
            (ScalarValue::BinaryView(a), ScalarValue::BinaryView(b)) => same_bytes(a, b),
            (ScalarValue::FixedSizeBinary(m, a), ScalarValue::FixedSizeBinary(n, b)) => *m == *n
                && same_bytes(a, b),
            (ScalarValue::IntervalYearMonth(a), ScalarValue::IntervalYearMonth(b)) => *a == *b,
            (ScalarValue::IntervalDayTime(a), ScalarValue::IntervalDayTime(b)) => *a == *b,
            (ScalarValue::IntervalMonthDayNano(a), ScalarValue::IntervalMonthDayNano(b)) => *a
                == *b,
            (ScalarValue::Dictionary(k, a), ScalarValue::Dictionary(l, b)) => *k == *l
                && (**a).same(&**b),
            (ScalarValue::Other(m, a), ScalarValue::Other(n, b)) => *m == *n && *a == *b,
            _ => false,
        }
    }

    /// The null of a type.
    pub fn null(data_type: &DataType) -> (r: Self)
        ensures
            r@ == null_of(data_type@),
        decreases data_type,
    {
        match data_type {
            DataType::Null => ScalarValue::Null,
            DataType::Boolean => ScalarValue::Boolean(None),
            DataType::Int8 => ScalarValue::Int8(None),
            DataType::Int16 => ScalarValue::Int16(None),
            DataType::Int32 => ScalarValue::Int32(None),
            DataType::Int64 => ScalarValue::Int64(None),
            DataType::UInt8 => ScalarValue::UInt8(None),
            DataType::UInt16 => ScalarValue::UInt16(None),
            DataType::UInt32 => ScalarValue::UInt32(None),
            DataType::UInt64 => ScalarValue::UInt64(None),
            DataType::Date32 => ScalarValue::Date32(None),
            DataType::Date64 => ScalarValue::Date64(None),
            DataType::Time32Second => ScalarValue::Time32Second(None),
            DataType::Time32Millisecond => ScalarValue::Time32Millisecond(None),
            DataType::Time64Microsecond => ScalarValue::Time64Microsecond(None),
            DataType::Time64Nanosecond => ScalarValue::Time64Nanosecond(None),
            DataType::DurationSecond => ScalarValue::DurationSecond(None),
            DataType::DurationMillisecond => ScalarValue::DurationMillisecond(None),
            DataType::DurationMicrosecond => ScalarValue::DurationMicrosecond(None),
            DataType::DurationNanosecond => ScalarValue::DurationNanosecond(None),
            DataType::Utf8 => ScalarValue::Utf8(None),
            DataType::Utf8View => ScalarValue::Utf8View(None),
            DataType::LargeUtf8 => ScalarValue::LargeUtf8(None),
            DataType::Timestamp(unit, zone) => match unit {
                TimeUnit::Second => ScalarValue::TimestampSecond(None, clone_zone(zone)),
                TimeUnit::Millisecond => ScalarValue::TimestampMillisecond(None, clone_zone(zone)),
                TimeUnit::Microsecond => ScalarValue::TimestampMicrosecond(None, clone_zone(zone)),
                TimeUnit::Nanosecond => ScalarValue::TimestampNanosecond(None, clone_zone(zone)),
            },
            DataType::Decimal32(p, s) => ScalarValue::Decimal32(None, *p, *s),
            DataType::Decimal64(p, s) => ScalarValue::Decimal64(None, *p, *s),
            DataType::Decimal128(p, s) => ScalarValue::Decimal128(None, *p, *s),
            DataType::Decimal256(p, s) => ScalarValue::Decimal256(None, *p, *s),
            DataType::Binary => ScalarValue::Binary(None),
            DataType::LargeBinary => ScalarValue::LargeBinary(None),
            DataType::BinaryView => ScalarValue::BinaryView(None),
            DataType::FixedSizeBinary(n) => ScalarValue::FixedSizeBinary(*n, None),
            DataType::IntervalYearMonth => ScalarValue::IntervalYearMonth(None),
            DataType::IntervalDayTime => ScalarValue::IntervalDayTime(None),
            DataType::IntervalMonthDayNano => ScalarValue::IntervalMonthDayNano(None),
            DataType::Dictionary(key, t) => ScalarValue::Dictionary(
                *key,
                Box::new(ScalarValue::null(&**t)),
            ),
            DataType::Other(name) => ScalarValue::Other(name.clone(), None),
        }
    }
}

/// Values compare as what they hold does: `false` is less than `true`, integers
/// compare as numbers, texts and bytes by the first byte in which they differ, and
/// spans of time by their months, then their days, then their parts of a day.
pub proof fn values_compare_as_what_they_hold(a: ScalarView, b: ScalarView)
    ensures
        a.is_null() || b.is_null() ==> !a.lt(b) && !a.le(b),
        a.value matches Some(Datum::Boolean(x)) ==> b.value matches Some(Datum::Boolean(y)) ==> (
        a.lt(b) <==> !x && y) && (a.le(b) <==> (x ==> y)),
        a.value matches Some(Datum::Integer(x)) ==> b.value matches Some(Datum::Integer(y)) ==> (
        a.lt(b) <==> x < y) && (a.le(b) <==> x <= y),
        a.value matches Some(Datum::Text(x)) ==> b.value matches Some(Datum::Text(y)) ==> (a.lt(b)
            <==> exists|k: int|
            crate::text::differ_first_at(
                vstd::utf8::encode_utf8(x),
                vstd::utf8::encode_utf8(y),
                k,
            )),
        a.value matches Some(Datum::Bytes(x)) ==> b.value matches Some(Datum::Bytes(y)) ==> (a.lt(b)
            <==> exists|k: int| crate::text::differ_first_at(x, y, k)),
        a.value matches Some(Datum::Span(m, d, p)) ==> b.value matches Some(Datum::Span(n, e, q))
            ==> (a.lt(b) <==> m < n || m == n && d < e || m == n && d == e && p < q),
{
    if let (Some(Datum::Text(x)), Some(Datum::Text(y))) = (a.value, b.value) {
        crate::text::texts_are_ordered_by_their_first_difference(x, y);
    }
    if let (Some(Datum::Bytes(x)), Some(Datum::Bytes(y))) = (a.value, b.value) {
        crate::text::bytes_are_ordered_by_their_first_difference(x, y);
    }
}

/// The values of every type that Arrow has a name for here are looked into, but for
/// decimal types with digits that their decimals cannot have, and for bytes of no
/// size. Those of a dictionary are looked into as those that it holds.
pub proof fn types_that_are_looked_into(t: DataTypeView)
    ensures
        t is Other ==> !t.known(),
        !(t is Other || t.decimal() || t is FixedSizeBinary || t is Dictionary) ==> t.known(),
        t matches DataTypeView::Dictionary(_, u) ==> (t.known() <==> u.known()),
        t matches DataTypeView::FixedSizeBinary(n) ==> (t.known() <==> n > 0),
        t matches DataTypeView::Decimal32(p, s) ==> (t.known() <==> 1 <= p <= 9 && s <= p),
        t matches DataTypeView::Decimal64(p, s) ==> (t.known() <==> 1 <= p <= 18 && s <= p),
        t matches DataTypeView::Decimal128(p, s) ==> (t.known() <==> 1 <= p <= 38 && s <= p),
        t matches DataTypeView::Decimal256(p, s) ==> (t.known() <==> 1 <= p <= 76 && s <= p),
{
}

/// A null is a value that holds nothing, and every type has one. A value is at most
/// another where it is less, or holds the same.
pub proof fn nulls_hold_nothing(a: ScalarView, b: ScalarView, t: DataTypeView)
    ensures
        a.is_null() <==> a.value is None,
        null_of(t).data_type == t && null_of(t).value is None,
        a.value matches Some(x) ==> b.value matches Some(y) ==> (a.le(b) <==> a.lt(b) || x == y),
{
}

} // verus!
