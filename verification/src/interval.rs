//! Closed intervals of scalar values, and casts between scalar types.
//!
//! The arithmetic is DataFusion's. The functions of this module that call it
//! state what it returns, over the order of [`ScalarView`].
use arrow::array::timezone::Tz;
use arrow::datatypes::i256 as OutsideInt256;
use arrow::datatypes::Decimal256Type;
use arrow::datatypes::DecimalType;
use arrow::datatypes::IntervalDayTime as OutsideDayTime;
use arrow::datatypes::IntervalMonthDayNano as OutsideMonthDayNano;
use arrow::datatypes::TimestampSecondType;
use arrow::temporal_conversions::{as_datetime, as_datetime_with_timezone};
use arrow_schema::DataType as OutsideType;
use datafusion_common::DataFusionError;
use datafusion_common::ScalarValue as OutsideScalar;
use datafusion_expr::interval_arithmetic::Interval as OutsideInterval;
use vstd::arithmetic::power::pow;
use vstd::prelude::*;
use vstd::string::*;
use vstd::utf8::encode_utf8;

use crate::error::Error;
use crate::scalar::{
    lemma_scalar_lt_total, lemma_scalar_well_typed, null_of, DataType, DataTypeView, Datum, DayTime,
    Int256, KeyType, MonthDayNano, ScalarValue, ScalarView, TimeUnit,
};

verus! {

/// The error that DataFusion's calls return.
#[verifier::external_type_specification]
#[verifier::external_body]
pub struct ExDataFusionError(DataFusionError);

/// DataFusion's scalar value.
#[verifier::external_type_specification]
#[verifier::external_body]
pub struct ExOutsideScalar(OutsideScalar);

/// Arrow's type of values.
#[verifier::external_type_specification]
#[verifier::external_body]
pub struct ExOutsideType(OutsideType);

/// Arrow's span of days and milliseconds.
#[verifier::external_type_specification]
#[verifier::external_body]
pub struct ExOutsideDayTime(OutsideDayTime);

/// Arrow's span of months, days and nanoseconds.
#[verifier::external_type_specification]
#[verifier::external_body]
pub struct ExOutsideMonthDayNano(OutsideMonthDayNano);

/// DataFusion's interval.
#[verifier::external_type_specification]
#[verifier::external_body]
pub struct ExOutsideInterval(OutsideInterval);

/// A closed interval. A bound that is null leaves that side open.
#[derive(Debug, PartialEq, Eq, Hash)]
pub struct Interval {
    pub lower: ScalarValue,
    pub upper: ScalarValue,
}

/// The bounds of an [`Interval`].
pub struct IntervalView {
    pub lower: ScalarView,
    pub upper: ScalarView,
}

impl View for Interval {
    type V = IntervalView;

    open spec fn view(&self) -> IntervalView {
        IntervalView { lower: self.lower@, upper: self.upper@ }
    }
}

impl Clone for Interval {
    fn clone(&self) -> (r: Self)
        ensures
            r@ == self@,
    {
        Interval { lower: self.lower.clone(), upper: self.upper.clone() }
    }
}

/// The bounds of an optional [`Interval`].
pub open spec fn range_view(range: Option<Interval>) -> Option<IntervalView> {
    match range {
        Some(i) => Some(i@),
        None => None,
    }
}

/// The lower bound that stands for an open side: types with a least value
/// that has no predecessor start at it.
pub open spec fn canonical_lower(v: ScalarView) -> ScalarView {
    if !v.is_null() {
        v
    } else if v.data_type is Boolean {
        ScalarView { data_type: v.data_type, value: Some(Datum::Boolean(false)) }
    } else if v.data_type.unsigned() {
        ScalarView { data_type: v.data_type, value: Some(Datum::Integer(0)) }
    } else {
        v
    }
}

/// The upper bound that stands for an open side.
pub open spec fn canonical_upper(v: ScalarView) -> ScalarView {
    if v.is_null() && v.data_type is Boolean {
        ScalarView { data_type: v.data_type, value: Some(Datum::Boolean(true)) }
    } else {
        v
    }
}

/// The interval between two bounds of one type.
pub open spec fn between(lower: ScalarView, upper: ScalarView) -> IntervalView {
    IntervalView { lower: canonical_lower(lower), upper: canonical_upper(upper) }
}

/// The interval of all values of a type.
pub open spec fn unbounded(data_type: DataTypeView) -> IntervalView {
    between(null_of(data_type), null_of(data_type))
}

/// The interval of one boolean, or of both.
pub open spec fn booleans(lower: bool, upper: bool) -> IntervalView {
    IntervalView {
        lower: ScalarView { data_type: DataTypeView::Boolean, value: Some(Datum::Boolean(lower)) },
        upper: ScalarView { data_type: DataTypeView::Boolean, value: Some(Datum::Boolean(upper)) },
    }
}

impl IntervalView {
    pub open spec fn data_type(self) -> DataTypeView {
        self.lower.data_type
    }

    /// The lower bound is not above the upper one.
    pub open spec fn ordered(self) -> bool {
        self.lower.is_null() || self.upper.is_null() || self.lower.le(self.upper)
    }

    /// An interval that the constructors of [`Interval`] can give.
    pub open spec fn valid(self) -> bool {
        &&& self.lower.data_type == self.upper.data_type
        &&& self.lower.well_typed()
        &&& self.upper.well_typed()
        &&& self == between(self.lower, self.upper)
        &&& self.ordered()
        &&& !self.data_type().known() ==> self == unbounded(self.data_type())
    }

    /// The values of both intervals, where there are any.
    pub open spec fn intersection(self, other: Self) -> Option<IntervalView> {
        if other.upper.lt(self.lower) || self.upper.lt(other.lower) {
            None
        } else {
            Some(
                IntervalView {
                    lower: if other.lower.is_null() || other.lower.le(self.lower) {
                        self.lower
                    } else {
                        other.lower
                    },
                    upper: if other.upper.is_null() || self.upper.le(other.upper) {
                        self.upper
                    } else {
                        other.upper
                    },
                },
            )
        }
    }

    /// Every value of the other interval is a value of this one.
    pub open spec fn contains(self, other: Self) -> bool {
        self.intersection(other) == Some(other)
    }

    /// The interval has one value.
    pub open spec fn is_point(self) -> bool {
        !self.lower.is_null() && self.lower == self.upper
    }
}

/// The least value above a value, for a type that has one; nothing above the
/// greatest. Of a span with more than one part the last one grows.
pub open spec fn next(v: ScalarView) -> ScalarView {
    match v.value {
        Some(Datum::Integer(i)) => if !v.data_type.discrete() {
            v
        } else if i == v.data_type.max() {
            null_of(v.data_type)
        } else {
            ScalarView { data_type: v.data_type, value: Some(Datum::Integer(i + 1)) }
        },
        Some(Datum::Span(m, d, p)) => if !v.data_type.spanning() {
            v
        } else if greatest_span(v) {
            null_of(v.data_type)
        } else {
            ScalarView { data_type: v.data_type, value: Some(Datum::Span(m, d, p + 1)) }
        },
        _ => v,
    }
}

/// The greatest value below a value, for a type that has one; nothing below
/// the least. Of a span with more than one part the last one shrinks.
pub open spec fn prev(v: ScalarView) -> ScalarView {
    match v.value {
        Some(Datum::Integer(i)) => if !v.data_type.discrete() {
            v
        } else if i == v.data_type.min() {
            null_of(v.data_type)
        } else {
            ScalarView { data_type: v.data_type, value: Some(Datum::Integer(i - 1)) }
        },
        Some(Datum::Span(m, d, p)) => if !v.data_type.spanning() {
            v
        } else if least_span(v) {
            null_of(v.data_type)
        } else {
            ScalarView { data_type: v.data_type, value: Some(Datum::Span(m, d, p - 1)) }
        },
        _ => v,
    }
}

/// The value is the greatest span of its type.
pub open spec fn greatest_span(v: ScalarView) -> bool {
    v.value matches Some(Datum::Span(m, d, p)) && d == i32::MAX && p == v.data_type.greatest_part()
        && (v.data_type is IntervalMonthDayNano ==> m == i32::MAX)
}

/// The value is the least span of its type.
pub open spec fn least_span(v: ScalarView) -> bool {
    v.value matches Some(Datum::Span(m, d, p)) && d == i32::MIN && p == v.data_type.least_part()
        && (v.data_type is IntervalMonthDayNano ==> m == i32::MIN)
}

/// The last part of a span can grow, or nothing lies above the span.
pub open spec fn steps_up(v: ScalarView) -> bool {
    v.data_type.spanning() ==> (v.value matches Some(Datum::Span(_, _, p)) ==> p
        < v.data_type.greatest_part() || greatest_span(v))
}

/// The last part of a span can shrink, or nothing lies below the span.
pub open spec fn steps_down(v: ScalarView) -> bool {
    v.data_type.spanning() ==> (v.value matches Some(Datum::Span(_, _, p)) ==> p
        > v.data_type.least_part() || least_span(v))
}

/// What is left of two intervals when the value of the first is to be greater
/// than the value of the second.
pub open spec fn greater(left: IntervalView, right: IntervalView) -> Option<
    (IntervalView, IntervalView),
> {
    if left.upper.le(right.lower) {
        None
    } else {
        let lower = if left.lower.is_null() || left.lower.le(right.lower) {
            next(right.lower)
        } else {
            left.lower
        };
        let upper = if right.upper.is_null() || left.upper.le(right.upper) {
            prev(left.upper)
        } else {
            right.upper
        };
        Some((between(lower, left.upper), between(right.lower, upper)))
    }
}

/// The first second that a calendar date can tell: the start of the year
/// -262143.
pub const FIRST_SECOND: i128 = -8_334_601_228_800;

/// The last second that a calendar date can tell: the end of the year 262142.
pub const LAST_SECOND: i128 = 8_210_266_876_799;

/// The seconds of a day.
pub const DAY: i128 = 86_400;

/// The parts of a second that a unit counts.
pub open spec fn per_second(unit: TimeUnit) -> int {
    match unit {
        TimeUnit::Second => 1,
        TimeUnit::Millisecond => 1_000,
        TimeUnit::Microsecond => 1_000_000,
        TimeUnit::Nanosecond => 1_000_000_000,
    }
}

/// An instant, counted in parts of a second, is one that a calendar date can
/// tell.
pub open spec fn in_calendar(count: int, per_second: int) -> bool {
    FIRST_SECOND * per_second <= count < (LAST_SECOND + 1) * per_second
}

/// The seconds that a time zone is ahead of the calendar at a second; nothing
/// where there is no such zone, or no calendar date tells the second.
pub uninterp spec fn offset_at(zone: Seq<char>, second: int) -> Option<int>;

/// The second that a time zone means by a second of its own; nothing where there
/// is no such zone, or where it means none, or more than one, that a calendar date
/// can tell.
pub uninterp spec fn meant_second(zone: Seq<char>, second: int) -> Option<int>;

/// An instant can be told in a time zone, or is none that is told at all.
pub open spec fn told_in(count: int, per_second: int, zone: Seq<char>) -> bool {
    match offset_at(zone, count / per_second) {
        Some(seconds) => in_calendar(count + seconds * per_second, per_second),
        None => true,
    }
}

/// A time that a time zone tells is an instant.
pub open spec fn meant_in(count: int, per_second: int, zone: Seq<char>) -> bool {
    meant_second(zone, count / per_second) is Some
}

/// A count in a coarser unit, of which so many parts go into one. What is left
/// over is dropped.
pub open spec fn coarsened(count: int, parts: int) -> int {
    if count >= 0 {
        count / parts
    } else {
        -((-count) / parts)
    }
}

/// A time without a zone that is brought into a unit, and then taken for one that
/// the zone tells, is an instant.
pub open spec fn brought_into(count: int, from: int, to: int, zone: Seq<char>) -> bool {
    if to < from {
        meant_in(coarsened(count, from / to), to, zone)
    } else {
        meant_in(count, from, zone)
    }
}

/// The most bytes of a fixed size where Arrow makes room for 1024 values of that
/// size at once: for a null, and for a value that is put into a dictionary.
pub const FIXED_BYTES: i32 = 2_097_151;

/// A value of a type can be laid out as Arrow's arrays do: a text has, and bytes
/// are, at most as many bytes as they can address, and bytes of a fixed size have
/// it. A null leaves room for more values than itself.
pub open spec fn storable(value: Option<Datum>, source: DataTypeView) -> bool {
    match value {
        Some(Datum::Text(t)) => encode_utf8(t).len() <= i32::MAX,
        Some(Datum::Bytes(b)) => b.len() <= i32::MAX && (source matches DataTypeView::FixedSizeBinary(
            n,
        ) ==> b.len() == n),
        None => source matches DataTypeView::FixedSizeBinary(n) ==> n <= FIXED_BYTES,
        _ => true,
    }
}

/// The digits that the decimals of a type can have, and their precision and
/// scale.
pub open spec fn decimal_parts(t: DataTypeView) -> Option<(int, u8, i8)> {
    match t {
        DataTypeView::Decimal32(p, s) => Some((9, p, s)),
        DataTypeView::Decimal64(p, s) => Some((18, p, s)),
        DataTypeView::Decimal128(p, s) => Some((38, p, s)),
        DataTypeView::Decimal256(p, s) => Some((76, p, s)),
        _ => None,
    }
}

/// A number has at most so many digits.
pub open spec fn within_digits(v: int, digits: u8) -> bool {
    -pow(10, digits as nat) < v < pow(10, digits as nat)
}

/// A decimal can be brought to another scale: the scales are not too far apart,
/// and where the new type is narrower, and has room for all decimals of the old
/// one, it has room for this one. So it has where the decimal has no more digits
/// than its type says.
pub open spec fn rescales(v: int, source: DataTypeView, target: DataTypeView) -> bool {
    match (decimal_parts(source), decimal_parts(target)) {
        (Some((digits, p, s)), Some((new_digits, q, t))) => {
            let has_room = if s <= t {
                p + (t - s) <= q
            } else {
                p + (t - s) < q
            };
            &&& -127 <= t - s <= 127
            &&& p + (t - s) <= 127
            &&& new_digits < digits && has_room ==> target.min() <= v <= target.max()
                || within_digits(v, p)
        },
        _ => true,
    }
}

/// The most bytes of a decimal that is written out, from the first digit that
/// counts to the last one.
pub const DECIMAL_BYTES: usize = 256;

/// A text can be read as a decimal, or fails to be one: from its first digit above
/// 0 to its last digit there are not too many bytes. Arrow reads digits by calls
/// within calls, one for each 38 of them. A longer decimal has more digits than
/// any type has room for.
pub open spec fn readable(text: Seq<u8>) -> bool {
    forall|i: int, j: int|
        0 <= i <= j < text.len() && 0x31 <= #[trigger] text[i] <= 0x39 && 0x30
            <= #[trigger] text[j] <= 0x39 ==> j - i < DECIMAL_BYTES
}

/// A cast of a value of one type to another comes to an end, if only to a
/// failure: a time of day that is told in a finer unit stays in its type, a time
/// that is brought into a time zone or told in one does not leave the calendar, a
/// decimal can be brought to the new scale, and a text that is read as a decimal
/// has not too many digits.
pub open spec fn plain_castable(
    value: Option<Datum>,
    source: DataTypeView,
    target: DataTypeView,
) -> bool {
    match value {
        Some(Datum::Integer(v)) => match (source, target) {
            (DataTypeView::Time32Second, DataTypeView::Time32Millisecond) => i32::MIN <= v * 1_000
                <= i32::MAX,
            (DataTypeView::Time64Microsecond, DataTypeView::Time64Nanosecond) => i64::MIN <= v
                * 1_000 <= i64::MAX,
            (DataTypeView::Timestamp(unit, Some(zone)), _) => (target is Date32
                || target.textual()) ==> told_in(v, per_second(unit), zone),
            (DataTypeView::Timestamp(unit, None), DataTypeView::Timestamp(to, Some(zone))) =>
                brought_into(v, per_second(unit), per_second(to), zone),
            (DataTypeView::Date32, DataTypeView::Timestamp(to, Some(zone))) => brought_into(
                v * DAY,
                1,
                per_second(to),
                zone,
            ),
            (DataTypeView::Date64, DataTypeView::Timestamp(to, Some(zone))) => brought_into(
                v,
                1_000,
                per_second(to),
                zone,
            ),
            _ => rescales(v, source, target),
        },
        Some(Datum::Text(t)) => target.decimal() ==> readable(encode_utf8(t)),
        _ => true,
    }
}

/// A cast of a value of one type to another comes to an end, where either may be
/// that of a dictionary. A dictionary of dates or times takes in what is not in a
/// dictionary by its count, and one of bytes of a fixed size takes in few of them.
pub open spec fn castable_between(
    value: Option<Datum>,
    source: DataTypeView,
    target: DataTypeView,
) -> bool
    decreases source, target,
{
    match (source, target) {
        (DataTypeView::Dictionary(_, s), DataTypeView::Dictionary(_, t)) => castable_between(
            value,
            *s,
            *t,
        ),
        (DataTypeView::Dictionary(_, s), _) => castable_between(value, *s, target),
        (_, DataTypeView::Dictionary(_, t)) => (*t).temporal() || (castable_between(
            value,
            source,
            *t,
        ) && ((*t) matches DataTypeView::FixedSizeBinary(n) ==> n <= FIXED_BYTES)),
        _ => plain_castable(value, source, target),
    }
}

/// How many of a unit go into what a date of a type counts in, where the unit is
/// the finer one.
pub open spec fn date_parts(source: DataTypeView, unit: TimeUnit) -> int {
    match source {
        DataTypeView::Date32 => DAY * per_second(unit),
        DataTypeView::Date64 => if per_second(unit) > 1_000 {
            per_second(unit) / 1_000
        } else {
            1
        },
        _ => 1,
    }
}

/// The count of a date in a unit is one of 64 bits.
pub open spec fn date_fits(value: Option<Datum>, source: DataTypeView, target: DataTypeView) -> bool {
    match (value, target) {
        (Some(Datum::Integer(v)), DataTypeView::Timestamp(unit, _)) => (source is Date32 || source
            is Date64) ==> i64::MIN <= v * date_parts(source, unit) <= i64::MAX,
        _ => true,
    }
}

/// A cast of the value to the type comes to an end, if only to a failure. A date
/// of a dictionary that becomes an instant is not held to the limits of instants
/// on the way.
pub open spec fn castable(value: ScalarView, target: DataTypeView) -> bool {
    &&& storable(value.value, value.data_type.plain())
    &&& castable_between(value.value, value.data_type, target)
    &&& value.data_type is Dictionary ==> date_fits(
        value.value,
        value.data_type.plain(),
        target.plain(),
    )
}

/// What casting a value to a type gives; nothing where the cast fails.
pub uninterp spec fn cast_result(value: ScalarView, target: DataTypeView) -> Option<ScalarView>;

/// What casting a value to a type gives, a value of that type. A value of the type
/// stays as it is. Values of types that are not looked into are not cast.
pub open spec fn cast(value: ScalarView, target: DataTypeView) -> Option<ScalarView> {
    if value.data_type.known() && target.known() && castable(value, target) {
        let result = if value.data_type == target {
            Some(value)
        } else {
            cast_result(value, target)
        };
        match result {
            Some(v) => if v.data_type == target && v.well_typed() {
                Some(v)
            } else {
                None
            },
            None => None,
        }
    } else {
        None
    }
}

/// The values that two intervals have in common form an interval.
pub proof fn lemma_intersection_valid(a: IntervalView, b: IntervalView)
    requires
        a.valid(),
        b.valid(),
        a.data_type() == b.data_type(),
        a.intersection(b) is Some,
    ensures
        a.intersection(b)->0.valid(),
        a.intersection(b)->0.data_type() == a.data_type(),
{
    if a.data_type().known() {
        if !a.lower.is_null() && !b.lower.is_null() {
            lemma_scalar_lt_total(a.lower, b.lower);
        }
        if !a.upper.is_null() && !b.upper.is_null() {
            lemma_scalar_lt_total(a.upper, b.upper);
        }
        if !a.lower.is_null() && !b.upper.is_null() {
            lemma_scalar_lt_total(a.lower, b.upper);
        }
        if !b.lower.is_null() && !a.upper.is_null() {
            lemma_scalar_lt_total(b.lower, a.upper);
        }
    }
}

/// What two ranges have in common is all values only where both are.
pub proof fn lemma_unbounded_intersection(a: IntervalView, b: IntervalView)
    requires
        a.valid(),
        b.valid(),
        a.data_type() == b.data_type(),
        a.data_type().known(),
    ensures
        a.intersection(b) == Some(unbounded(a.data_type())) <==> a == unbounded(a.data_type())
            && b == unbounded(a.data_type()),
{
    let t = a.data_type();
    if t is Boolean {
        assert(a.lower.value->0 is Boolean && a.upper.value->0 is Boolean);
        assert(b.lower.value->0 is Boolean && b.upper.value->0 is Boolean);
    } else if t.unsigned() {
        assert(a.lower.value->0 is Integer && b.lower.value->0 is Integer);
    }
}

/// What a strict comparison leaves of two intervals are intervals.
pub proof fn lemma_greater_valid(left: IntervalView, right: IntervalView)
    requires
        left.valid(),
        right.valid(),
        left.data_type() == right.data_type(),
        left.data_type().known(),
        steps_up(right.lower),
        steps_down(left.upper),
        greater(left, right) is Some,
    ensures
        (greater(left, right)->0).0.valid(),
        (greater(left, right)->0).0.data_type() == left.data_type(),
        (greater(left, right)->0).1.valid(),
        (greater(left, right)->0).1.data_type() == left.data_type(),
{
    let (a, b) = greater(left, right)->0;
    if !left.upper.is_null() && !right.lower.is_null() {
        lemma_scalar_lt_total(left.upper, right.lower);
    }
    if !left.lower.is_null() && !right.lower.is_null() {
        lemma_scalar_lt_total(left.lower, right.lower);
    }
    if !left.upper.is_null() && !right.upper.is_null() {
        lemma_scalar_lt_total(left.upper, right.upper);
    }
    assert(a.lower.well_typed() && b.upper.well_typed());
    assert(a.ordered());
    assert(b.ordered());
}

// ---------------------------------------------------------------------------
// Conversions between this library's values and DataFusion's, one for one.
// ---------------------------------------------------------------------------

/// The `ScalarValue` of DataFusion with the same variant and contents.
#[verifier::external_body]
fn to_outside(v: &ScalarValue) -> OutsideScalar {
    match v {
        ScalarValue::Boolean(x) => OutsideScalar::Boolean(*x),
        ScalarValue::Int8(x) => OutsideScalar::Int8(*x),
        ScalarValue::Int16(x) => OutsideScalar::Int16(*x),
        ScalarValue::Int32(x) => OutsideScalar::Int32(*x),
        ScalarValue::Int64(x) => OutsideScalar::Int64(*x),
        ScalarValue::UInt8(x) => OutsideScalar::UInt8(*x),
        ScalarValue::UInt16(x) => OutsideScalar::UInt16(*x),
        ScalarValue::UInt32(x) => OutsideScalar::UInt32(*x),
        ScalarValue::UInt64(x) => OutsideScalar::UInt64(*x),
        other => texts_and_times_to_outside(other),
    }
}

/// The part of [`to_outside`] for texts, dates and times of day.
#[verifier::external_body]
fn texts_and_times_to_outside(v: &ScalarValue) -> OutsideScalar {
    match v {
        ScalarValue::Utf8(x) => OutsideScalar::Utf8(x.clone()),
        ScalarValue::Utf8View(x) => OutsideScalar::Utf8View(x.clone()),
        ScalarValue::LargeUtf8(x) => OutsideScalar::LargeUtf8(x.clone()),
        ScalarValue::Date32(x) => OutsideScalar::Date32(*x),
        ScalarValue::Date64(x) => OutsideScalar::Date64(*x),
        ScalarValue::Time32Second(x) => OutsideScalar::Time32Second(*x),
        ScalarValue::Time32Millisecond(x) => OutsideScalar::Time32Millisecond(*x),
        ScalarValue::Time64Microsecond(x) => OutsideScalar::Time64Microsecond(*x),
        ScalarValue::Time64Nanosecond(x) => OutsideScalar::Time64Nanosecond(*x),
        other => durations_to_outside(other),
    }
}

/// The part of [`to_outside`] for durations and decimals.
#[verifier::external_body]
fn durations_to_outside(v: &ScalarValue) -> OutsideScalar {
    match v {
        ScalarValue::DurationSecond(x) => OutsideScalar::DurationSecond(*x),
        ScalarValue::DurationMillisecond(x) => OutsideScalar::DurationMillisecond(*x),
        ScalarValue::DurationMicrosecond(x) => OutsideScalar::DurationMicrosecond(*x),
        ScalarValue::DurationNanosecond(x) => OutsideScalar::DurationNanosecond(*x),
        ScalarValue::Decimal32(x, p, s) => OutsideScalar::Decimal32(*x, *p, *s),
        ScalarValue::Decimal64(x, p, s) => OutsideScalar::Decimal64(*x, *p, *s),
        ScalarValue::Decimal128(x, p, s) => OutsideScalar::Decimal128(*x, *p, *s),
        other => bytes_to_outside(other),
    }
}

/// The part of [`to_outside`] for bytes and spans of months.
#[verifier::external_body]
fn bytes_to_outside(v: &ScalarValue) -> OutsideScalar {
    match v {
        ScalarValue::Binary(x) => OutsideScalar::Binary(x.clone()),
        ScalarValue::LargeBinary(x) => OutsideScalar::LargeBinary(x.clone()),
        ScalarValue::BinaryView(x) => OutsideScalar::BinaryView(x.clone()),
        ScalarValue::FixedSizeBinary(n, x) => OutsideScalar::FixedSizeBinary(*n, x.clone()),
        ScalarValue::IntervalYearMonth(x) => OutsideScalar::IntervalYearMonth(*x),
        other => wide_to_outside(other),
    }
}

/// The part of [`to_outside`] for values of more than one part, and for
/// dictionaries.
#[verifier::external_body]
fn wide_to_outside(v: &ScalarValue) -> OutsideScalar {
    let wide = |i: Int256| OutsideInt256::from_parts(i.low, i.high);
    let days = |i: DayTime| OutsideDayTime::new(i.days, i.milliseconds);
    let months = |i: MonthDayNano| OutsideMonthDayNano::new(i.months, i.days, i.nanoseconds);
    match v {
        ScalarValue::Decimal256(x, p, s) => OutsideScalar::Decimal256(x.map(wide), *p, *s),
        ScalarValue::IntervalDayTime(x) => OutsideScalar::IntervalDayTime(x.map(days)),
        ScalarValue::IntervalMonthDayNano(x) => OutsideScalar::IntervalMonthDayNano(x.map(months)),
        ScalarValue::Dictionary(key, x) => {
            OutsideScalar::Dictionary(Box::new(key_to_outside(*key)), Box::new(to_outside(x)))
        },
        other => timestamps_to_outside(other),
    }
}

/// The `DataType` of Arrow of the keys of a dictionary.
#[verifier::external_body]
fn key_to_outside(key: KeyType) -> OutsideType {
    match key {
        KeyType::Int8 => OutsideType::Int8,
        KeyType::Int16 => OutsideType::Int16,
        KeyType::Int32 => OutsideType::Int32,
        KeyType::Int64 => OutsideType::Int64,
        KeyType::UInt8 => OutsideType::UInt8,
        KeyType::UInt16 => OutsideType::UInt16,
        KeyType::UInt32 => OutsideType::UInt32,
        KeyType::UInt64 => OutsideType::UInt64,
    }
}

/// The part of [`to_outside`] for timestamps. What is left after it is the
/// value that has no type.
#[verifier::external_body]
fn timestamps_to_outside(v: &ScalarValue) -> OutsideScalar {
    let zone = |z: &Option<String>| z.as_deref().map(std::sync::Arc::from);
    match v {
        ScalarValue::TimestampSecond(x, z) => OutsideScalar::TimestampSecond(*x, zone(z)),
        ScalarValue::TimestampMillisecond(x, z) => OutsideScalar::TimestampMillisecond(*x, zone(z)),
        ScalarValue::TimestampMicrosecond(x, z) => OutsideScalar::TimestampMicrosecond(*x, zone(z)),
        ScalarValue::TimestampNanosecond(x, z) => OutsideScalar::TimestampNanosecond(*x, zone(z)),
        _ => OutsideScalar::Null,
    }
}

/// The value of this library with the same variant and contents as a
/// `ScalarValue` of DataFusion, for the variants that both have.
#[verifier::external_body]
fn from_outside(v: OutsideScalar) -> ScalarValue {
    match v {
        OutsideScalar::Boolean(x) => ScalarValue::Boolean(x),
        OutsideScalar::Int8(x) => ScalarValue::Int8(x),
        OutsideScalar::Int16(x) => ScalarValue::Int16(x),
        OutsideScalar::Int32(x) => ScalarValue::Int32(x),
        OutsideScalar::Int64(x) => ScalarValue::Int64(x),
        OutsideScalar::UInt8(x) => ScalarValue::UInt8(x),
        OutsideScalar::UInt16(x) => ScalarValue::UInt16(x),
        OutsideScalar::UInt32(x) => ScalarValue::UInt32(x),
        OutsideScalar::UInt64(x) => ScalarValue::UInt64(x),
        other => texts_and_times_from_outside(other),
    }
}

/// The part of [`from_outside`] for texts, dates and times of day.
#[verifier::external_body]
fn texts_and_times_from_outside(v: OutsideScalar) -> ScalarValue {
    match v {
        OutsideScalar::Utf8(x) => ScalarValue::Utf8(x),
        OutsideScalar::Utf8View(x) => ScalarValue::Utf8View(x),
        OutsideScalar::LargeUtf8(x) => ScalarValue::LargeUtf8(x),
        OutsideScalar::Date32(x) => ScalarValue::Date32(x),
        OutsideScalar::Date64(x) => ScalarValue::Date64(x),
        OutsideScalar::Time32Second(x) => ScalarValue::Time32Second(x),
        OutsideScalar::Time32Millisecond(x) => ScalarValue::Time32Millisecond(x),
        OutsideScalar::Time64Microsecond(x) => ScalarValue::Time64Microsecond(x),
        OutsideScalar::Time64Nanosecond(x) => ScalarValue::Time64Nanosecond(x),
        other => durations_from_outside(other),
    }
}

/// The part of [`from_outside`] for durations and decimals.
#[verifier::external_body]
fn durations_from_outside(v: OutsideScalar) -> ScalarValue {
    match v {
        OutsideScalar::DurationSecond(x) => ScalarValue::DurationSecond(x),
        OutsideScalar::DurationMillisecond(x) => ScalarValue::DurationMillisecond(x),
        OutsideScalar::DurationMicrosecond(x) => ScalarValue::DurationMicrosecond(x),
        OutsideScalar::DurationNanosecond(x) => ScalarValue::DurationNanosecond(x),
        OutsideScalar::Decimal32(x, p, s) => ScalarValue::Decimal32(x, p, s),
        OutsideScalar::Decimal64(x, p, s) => ScalarValue::Decimal64(x, p, s),
        OutsideScalar::Decimal128(x, p, s) => ScalarValue::Decimal128(x, p, s),
        other => bytes_from_outside(other),
    }
}

/// The part of [`from_outside`] for bytes and spans of months.
#[verifier::external_body]
fn bytes_from_outside(v: OutsideScalar) -> ScalarValue {
    match v {
        OutsideScalar::Binary(x) => ScalarValue::Binary(x),
        OutsideScalar::LargeBinary(x) => ScalarValue::LargeBinary(x),
        OutsideScalar::BinaryView(x) => ScalarValue::BinaryView(x),
        OutsideScalar::FixedSizeBinary(n, x) => ScalarValue::FixedSizeBinary(n, x),
        OutsideScalar::IntervalYearMonth(x) => ScalarValue::IntervalYearMonth(x),
        other => wide_from_outside(other),
    }
}

/// The part of [`from_outside`] for values of more than one part, and for
/// dictionaries.
#[verifier::external_body]
fn wide_from_outside(v: OutsideScalar) -> ScalarValue {
    let wide = |i: OutsideInt256| Int256 { high: i.to_parts().1, low: i.to_parts().0 };
    match v {
        OutsideScalar::Decimal256(x, p, s) => ScalarValue::Decimal256(x.map(wide), p, s),
        OutsideScalar::IntervalDayTime(x) => ScalarValue::IntervalDayTime(x.map(day_time)),
        OutsideScalar::IntervalMonthDayNano(x) => {
            ScalarValue::IntervalMonthDayNano(x.map(month_day_nano))
        },
        OutsideScalar::Dictionary(key, x) => {
            ScalarValue::Dictionary(key_from_outside(&key), Box::new(from_outside(*x)))
        },
        other => timestamps_from_outside(other),
    }
}

/// The span of this library with the same parts.
#[verifier::external_body]
fn day_time(i: OutsideDayTime) -> DayTime {
    DayTime { days: i.days, milliseconds: i.milliseconds }
}

/// The span of this library with the same parts.
#[verifier::external_body]
fn month_day_nano(i: OutsideMonthDayNano) -> MonthDayNano {
    MonthDayNano { months: i.months, days: i.days, nanoseconds: i.nanoseconds }
}

/// The type of the keys of a dictionary, which are integers.
#[verifier::external_body]
fn key_from_outside(key: &OutsideType) -> KeyType {
    match key {
        OutsideType::Int8 => KeyType::Int8,
        OutsideType::Int16 => KeyType::Int16,
        OutsideType::Int32 => KeyType::Int32,
        OutsideType::Int64 => KeyType::Int64,
        OutsideType::UInt8 => KeyType::UInt8,
        OutsideType::UInt16 => KeyType::UInt16,
        OutsideType::UInt32 => KeyType::UInt32,
        _ => KeyType::UInt64,
    }
}

/// The part of [`from_outside`] for timestamps. What is left after it is the
/// value that has no type.
#[verifier::external_body]
fn timestamps_from_outside(v: OutsideScalar) -> ScalarValue {
    let zone = |z: Option<std::sync::Arc<str>>| z.as_deref().map(String::from);
    match v {
        OutsideScalar::TimestampSecond(x, z) => ScalarValue::TimestampSecond(x, zone(z)),
        OutsideScalar::TimestampMillisecond(x, z) => ScalarValue::TimestampMillisecond(x, zone(z)),
        OutsideScalar::TimestampMicrosecond(x, z) => ScalarValue::TimestampMicrosecond(x, zone(z)),
        OutsideScalar::TimestampNanosecond(x, z) => ScalarValue::TimestampNanosecond(x, zone(z)),
        _ => ScalarValue::Null,
    }
}

/// The `DataType` of Arrow with the same variant and contents.
#[verifier::external_body]
pub(crate) fn outside_type(data_type: &DataType) -> OutsideType {
    to_outside(&ScalarValue::null(data_type)).data_type()
}

/// The `Interval` of DataFusion with the same bounds.
#[verifier::external_body]
fn interval_to_outside(i: &Interval) -> Result<OutsideInterval, DataFusionError>
    requires
        i@.valid(),
        i@.data_type().known(),
{
    OutsideInterval::try_new(to_outside(&i.lower), to_outside(&i.upper))
}

/// The interval of this library with the same bounds.
#[verifier::external_body]
fn interval_from_outside(i: OutsideInterval) -> Interval {
    let (lower, upper) = i.into_bounds();
    Interval { lower: from_outside(lower), upper: from_outside(upper) }
}

// ---------------------------------------------------------------------------
// DataFusion's functions.
// ---------------------------------------------------------------------------

/// `ScalarValue::cast_to`: a one-row array of the value goes through Arrow's
/// cast, which fails on a value that the target type cannot hold, and panics, or
/// wraps around, on some values that are not [`castable`]. What the cast of a
/// castable value gives is a function of the value and of the target type alone.
/// A value that has the target type already is given back; of other casts nothing
/// further is stated.
#[verifier::external_body]
fn outside_cast_to(value: &ScalarValue, target: &DataType) -> (r: Result<
    ScalarValue,
    DataFusionError,
>)
    requires
        value@.data_type.known(),
        target@.known(),
        castable(value@, target@),
    ensures
        r is Ok <==> cast_result(value@, target@) is Some,
        r is Ok ==> r->Ok_0@ == cast_result(value@, target@)->0,
        value@.data_type == target@ ==> (r is Ok && r->Ok_0@ == value@),
{
    to_outside(value).cast_to(&outside_type(target)).map(from_outside)
}

/// Arrow's `as_datetime_with_timezone`, and the offset of the time that it gives.
/// What they give is a function of the name of the zone and of the second alone,
/// and is not stated further. An offset is less than a day.
#[verifier::external_body]
fn outside_offset_at(zone: &String, second: i64) -> (r: Option<i32>)
    ensures
        r is Some <==> offset_at(zone@, second as int) is Some,
        r is Some ==> r->0 == offset_at(zone@, second as int)->0,
        r is Some ==> -DAY < r->0 < DAY,
{
    let zone: Tz = zone.parse().ok()?;
    let told = as_datetime_with_timezone::<TimestampSecondType>(second, zone)?;
    Some(told.fixed_offset().offset().local_minus_utc())
}

/// `NaiveDateTime::and_local_timezone`, on the date and time that Arrow's
/// `as_datetime` tells of the second: the one instant that the zone means by it.
/// What it gives is a function of the name of the zone and of the second alone,
/// and is not stated further.
#[verifier::external_body]
fn outside_meant_second(zone: &String, second: i64) -> (r: Option<i64>)
    ensures
        r is Some <==> meant_second(zone@, second as int) is Some,
        r is Some ==> r->0 == meant_second(zone@, second as int)->0,
{
    let zone: Tz = zone.parse().ok()?;
    let told = as_datetime::<TimestampSecondType>(second)?;
    told.and_local_timezone(zone).single().map(|meant| meant.timestamp())
}

/// `Interval::make_unbounded`: the interval whose bounds are both the null of
/// the type, in the form that `Interval` keeps.
#[verifier::external_body]
fn outside_make_unbounded(data_type: &DataType) -> (r: Result<Interval, DataFusionError>)
    requires
        data_type@.known(),
    ensures
        r is Ok,
        r->Ok_0@ == unbounded(data_type@),
{
    OutsideInterval::make_unbounded(&outside_type(data_type)).map(interval_from_outside)
}

/// `Interval::try_new`: the interval between two bounds of one type, in the form
/// that `Interval` keeps. Of bounds that are out of order it prints both in its
/// error, and panics on some dates.
#[verifier::external_body]
fn outside_try_new(lower: &ScalarValue, upper: &ScalarValue) -> (r: Result<
    Interval,
    DataFusionError,
>)
    requires
        lower@.data_type.known(),
        lower@.data_type == upper@.data_type,
        between(lower@, upper@).ordered(),
    ensures
        r is Ok,
        r->Ok_0@ == between(lower@, upper@),
{
    let interval = OutsideInterval::try_new(to_outside(lower), to_outside(upper));
    interval.map(interval_from_outside)
}

/// `Interval::intersect`: the values that both intervals have, or `None` where
/// one ends before the other starts. It fails where the types differ.
#[verifier::external_body]
fn outside_intersect(a: &Interval, b: &Interval) -> (r: Result<Option<Interval>, DataFusionError>)
    requires
        a@.valid(),
        b@.valid(),
        a@.data_type().known(),
        b@.data_type().known(),
    ensures
        r is Ok <==> a@.data_type() == b@.data_type(),
        r is Ok ==> range_view(r->Ok_0) == a@.intersection(b@),
{
    let both = interval_to_outside(a)?.intersect(interval_to_outside(b)?)?;
    Ok(both.map(interval_from_outside))
}

/// `Interval::contains`: certainly true where the intersection is the second
/// interval, certainly false where there is none, else either. It fails where
/// the types differ.
#[verifier::external_body]
fn outside_contains(a: &Interval, b: &Interval) -> (r: Result<Interval, DataFusionError>)
    requires
        a@.valid(),
        b@.valid(),
        a@.data_type().known(),
        b@.data_type().known(),
    ensures
        r is Ok <==> a@.data_type() == b@.data_type(),
        r is Ok ==> r->Ok_0@ == (match a@.intersection(b@) {
            Some(both) => if both == b@ {
                booleans(true, true)
            } else {
                booleans(false, true)
            },
            None => booleans(false, false),
        }),
{
    let answer = interval_to_outside(a)?.contains(interval_to_outside(b)?)?;
    Ok(interval_from_outside(answer))
}

/// `DecimalType::is_valid_decimal_precision` of `Decimal256Type`: whether a number
/// has at most so many digits.
#[verifier::external_body]
fn outside_is_valid_precision(v: Int256, precision: u8) -> (r: bool)
    requires
        1 <= precision <= 76,
    ensures
        r == within_digits(v@, precision),
{
    Decimal256Type::is_valid_decimal_precision(
        OutsideInt256::from_parts(v.low, v.high),
        precision,
    )
}

/// The bounds of an optional pair of intervals.
pub open spec fn pair_view(pair: Option<(Interval, Interval)>) -> Option<
    (IntervalView, IntervalView),
> {
    match pair {
        Some((a, b)) => Some((a@, b@)),
        None => None,
    }
}

/// `satisfy_greater` with a strict comparison: what is left of two intervals
/// when the value of the first is greater than that of the second, or `None`
/// where it cannot be. It fails where the types differ, and panics where the last
/// part of a span overflows.
#[verifier::external_body]
fn outside_satisfy_greater(left: &Interval, right: &Interval) -> (r: Result<
    Option<(Interval, Interval)>,
    DataFusionError,
>)
    requires
        left@.valid(),
        right@.valid(),
        left@.data_type().known(),
        right@.data_type().known(),
        steps_up(right@.lower),
        steps_down(left@.upper),
    ensures
        r is Ok <==> left@.data_type() == right@.data_type(),
        r is Ok ==> pair_view(r->Ok_0) == greater(left@, right@),
{
    let (left, right) = (interval_to_outside(left)?, interval_to_outside(right)?);
    let pair = datafusion_expr::interval_arithmetic::satisfy_greater(&left, &right, true)?;
    Ok(pair.map(|(a, b)| (interval_from_outside(a), interval_from_outside(b))))
}

/// Whether the first bound of an interval is not above the second: the values
/// from the first on and those up to the second have one in common.
fn in_order(lower: &ScalarValue, upper: &ScalarValue) -> (r: bool)
    requires
        lower@.data_type.known(),
        lower@.data_type == upper@.data_type,
    ensures
        r == between(lower@, upper@).ordered(),
{
    proof {
        lemma_scalar_well_typed(*lower);
        lemma_scalar_well_typed(*upper);
    }
    let null = ScalarValue::null(&lower.data_type());
    proof {
        lemma_half_open(lower@, upper@);
    }
    match (outside_try_new(lower, &null), outside_try_new(&null, upper)) {
        (Ok(from), Ok(to)) => match outside_intersect(&from, &to) {
            Ok(both) => both.is_some(),
            Err(_) => false,
        },
        _ => false,
    }
}

/// The values from one bound on, and those up to another, are intervals, and have
/// a value in common where the bounds are in order.
proof fn lemma_half_open(lower: ScalarView, upper: ScalarView)
    requires
        lower.well_typed(),
        upper.well_typed(),
        lower.data_type == upper.data_type,
        lower.data_type.known(),
    ensures
        between(lower, null_of(lower.data_type)).valid(),
        between(null_of(lower.data_type), upper).valid(),
        between(lower, null_of(lower.data_type)).intersection(
            between(null_of(lower.data_type), upper),
        ) is Some <==> between(lower, upper).ordered(),
{
    let null = null_of(lower.data_type);
    let from = between(lower, null);
    let to = between(null, upper);
    if !from.lower.is_null() && !to.upper.is_null() {
        lemma_scalar_lt_total(from.lower, to.upper);
    }
    if !from.upper.is_null() && !to.lower.is_null() {
        lemma_scalar_lt_total(from.upper, to.lower);
    }
}

impl Interval {
    /// The interval of all values of a type.
    pub fn make_unbounded(data_type: &DataType) -> (r: Self)
        ensures
            r@ == unbounded(data_type@),
            r@.valid(),
    {
        let null = ScalarValue::null(data_type);
        if data_type.known() {
            if let Ok(r) = outside_make_unbounded(data_type) {
                return r;
            }
        }
        Interval { lower: null.clone(), upper: null }
    }

    /// The interval between two bounds.
    pub fn try_new(lower: &ScalarValue, upper: &ScalarValue) -> (r: Result<Self, Error>)
        requires
            lower@.data_type.known(),
            upper@.data_type.known(),
        ensures
            r is Ok <==> lower@.data_type == upper@.data_type && between(lower@, upper@).ordered(),
            r is Ok ==> r->Ok_0@ == between(lower@, upper@) && r->Ok_0@.valid(),
            r is Err ==> r->Err_0 == (if lower@.data_type == upper@.data_type {
                Error::IntervalBounds
            } else {
                Error::IntervalTypes
            }),
    {
        proof {
            lemma_scalar_well_typed(*lower);
            lemma_scalar_well_typed(*upper);
        }
        if !lower.data_type().same(&upper.data_type()) {
            return Err(Error::IntervalTypes);
        }
        if !in_order(lower, upper) {
            return Err(Error::IntervalBounds);
        }
        match outside_try_new(lower, upper) {
            Ok(r) => Ok(r),
            Err(_) => Err(Error::IntervalBounds),
        }
    }

    /// The type of the values of the interval.
    pub fn data_type(&self) -> (r: DataType)
        ensures
            r@ == self@.data_type(),
    {
        self.lower.data_type()
    }

    /// The values that both intervals have, where there are any.
    pub fn intersect(&self, other: &Self) -> (r: Result<Option<Self>, Error>)
        requires
            self@.valid(),
            other@.valid(),
        ensures
            r is Ok <==> self@.data_type() == other@.data_type(),
            r is Ok ==> range_view(r->Ok_0) == self@.intersection(other@),
            r is Err ==> r->Err_0 == Error::IntervalTypes,
    {
        let data_type = self.data_type();
        if !data_type.same(&other.data_type()) {
            return Err(Error::IntervalTypes);
        }
        if !data_type.known() {
            return Ok(Some(self.clone()));
        }
        match outside_intersect(self, other) {
            Ok(r) => Ok(r),
            Err(_) => Err(Error::IntervalTypes),
        }
    }

    /// Whether every value of the other interval is a value of this one.
    pub fn contains(&self, other: &Self) -> (r: Result<bool, Error>)
        requires
            self@.valid(),
            other@.valid(),
        ensures
            r is Ok <==> self@.data_type() == other@.data_type(),
            r is Ok ==> r->Ok_0 == self@.contains(other@),
            r is Err ==> r->Err_0 == Error::IntervalTypes,
    {
        let data_type = self.data_type();
        if !data_type.same(&other.data_type()) {
            return Err(Error::IntervalTypes);
        }
        if !data_type.known() {
            return Ok(true);
        }
        match outside_contains(self, other) {
            Ok(answer) => match answer.lower {
                ScalarValue::Boolean(Some(certain)) => Ok(certain),
                _ => Err(Error::IntervalTypes),
            },
            Err(_) => Err(Error::IntervalTypes),
        }
    }
}

/// What is left of two intervals when the value of the first is to be greater
/// than the value of the second, where that is possible.
pub fn satisfy_greater(left: &Interval, right: &Interval) -> (r: Result<
    Option<(Interval, Interval)>,
    Error,
>)
    requires
        left@.valid(),
        right@.valid(),
        left@.data_type().known(),
        right@.data_type().known(),
        steps_up(right@.lower),
        steps_down(left@.upper),
    ensures
        r is Ok <==> left@.data_type() == right@.data_type(),
        r is Ok ==> pair_view(r->Ok_0) == greater(left@, right@),
        r is Err ==> r->Err_0 == Error::IntervalTypes,
{
    match outside_satisfy_greater(left, right) {
        Ok(r) => Ok(r),
        Err(_) => Err(Error::IntervalTypes),
    }
}

/// Whether the last part of a span can grow, or nothing lies above the span.
pub fn can_step_up(value: &ScalarValue) -> (r: bool)
    ensures
        r == steps_up(value@),
{
    match value {
        ScalarValue::IntervalDayTime(Some(i)) => i.milliseconds < i32::MAX || i.days == i32::MAX,
        ScalarValue::IntervalMonthDayNano(Some(i)) => i.nanoseconds < i64::MAX || (i.days
            == i32::MAX && i.months == i32::MAX),
        _ => true,
    }
}

/// Whether the last part of a span can shrink, or nothing lies below the span.
pub fn can_step_down(value: &ScalarValue) -> (r: bool)
    ensures
        r == steps_down(value@),
{
    match value {
        ScalarValue::IntervalDayTime(Some(i)) => i.milliseconds > i32::MIN || i.days == i32::MIN,
        ScalarValue::IntervalMonthDayNano(Some(i)) => i.nanoseconds > i64::MIN || (i.days
            == i32::MIN && i.months == i32::MIN),
        _ => true,
    }
}

proof fn lemma_seconds_fit(seconds: int, per_second: int)
    requires
        -10_000_000_000_000 <= seconds <= 10_000_000_000_000,
        1 <= per_second <= 1_000_000_000,
    ensures
        -10_000_000_000_000_000_000_000 <= seconds * per_second <= 10_000_000_000_000_000_000_000,
{
    assert(-10_000_000_000_000 * 1_000_000_000 <= seconds * per_second <= 10_000_000_000_000
        * 1_000_000_000) by (nonlinear_arith)
        requires
            -10_000_000_000_000 <= seconds <= 10_000_000_000_000,
            1 <= per_second <= 1_000_000_000,
    ;
}

/// The second that an instant lies in.
fn second_of(count: i64, per_second: i64) -> (r: i64)
    requires
        1 <= per_second,
    ensures
        r == count as int / per_second as int,
{
    proof {
        let c = count as int;
        let p = per_second as int;
        assert(i64::MIN <= c / p <= i64::MAX) by (nonlinear_arith)
            requires
                1 <= p,
                i64::MIN <= c <= i64::MAX,
        ;
    }
    match count.checked_div_euclid(per_second) {
        Some(second) => second,
        None => 0,
    }
}

/// Whether an instant can be told in a time zone, or is none that is told at all.
fn is_told_in(count: i64, per_second: i64, zone: &String) -> (r: bool)
    requires
        1 <= per_second <= 1_000_000_000,
    ensures
        r == told_in(count as int, per_second as int, zone@),
{
    match outside_offset_at(zone, second_of(count, per_second)) {
        Some(seconds) => {
            proof {
                lemma_seconds_fit(FIRST_SECOND as int, per_second as int);
                lemma_seconds_fit(LAST_SECOND + 1, per_second as int);
                lemma_seconds_fit(seconds as int, per_second as int);
            }
            let parts: i128 = per_second as i128;
            let told: i128 = (count as i128) + (seconds as i128) * parts;
            FIRST_SECOND * parts <= told && told < (LAST_SECOND + 1) * parts
        },
        None => true,
    }
}

/// Whether a time that a time zone tells is an instant.
fn is_meant_in(count: i64, per_second: i64, zone: &String) -> (r: bool)
    requires
        1 <= per_second,
    ensures
        r == meant_in(count as int, per_second as int, zone@),
{
    outside_meant_second(zone, second_of(count, per_second)).is_some()
}

/// The parts of a second that a unit counts.
fn parts_of(unit: TimeUnit) -> (r: i64)
    ensures
        r == per_second(unit),
        1 <= r <= 1_000_000_000,
{
    match unit {
        TimeUnit::Second => 1,
        TimeUnit::Millisecond => 1_000,
        TimeUnit::Microsecond => 1_000_000,
        TimeUnit::Nanosecond => 1_000_000_000,
    }
}

/// Whether a time without a zone, brought into a unit, can be taken for one that
/// the zone tells.
fn is_brought_into(count: i64, from: i64, to: i64, zone: &String) -> (r: bool)
    requires
        1 <= from <= 1_000_000_000,
        1 <= to <= 1_000_000_000,
    ensures
        r == brought_into(count as int, from as int, to as int, zone@),
{
    if to < from {
        let parts: i64 = from / to;
        proof {
            lemma_coarser(from as int, to as int);
        }
        let magnitude: u64 = if count >= 0 {
            count as u64
        } else {
            (-(count as i128)) as u64
        };
        let coarse: u64 = magnitude / (parts as u64);
        proof {
            lemma_quotient(magnitude as int, parts as int);
        }
        let coarse: i128 = if count >= 0 {
            coarse as i128
        } else {
            -(coarse as i128)
        };
        is_meant_in(coarse as i64, to, zone)
    } else {
        is_meant_in(count, from, zone)
    }
}

/// A unit goes into a coarser one.
proof fn lemma_coarser(from: int, to: int)
    requires
        0 < to < from,
    ensures
        1 <= from / to <= from,
{
    assert(1 <= from / to <= from) by (nonlinear_arith)
        requires
            0 < to < from,
    ;
}

/// A part of a number is at most as large.
proof fn lemma_quotient(n: int, parts: int)
    requires
        0 <= n,
        1 <= parts,
    ensures
        0 <= n / parts <= n,
{
    assert(0 <= n / parts <= n) by (nonlinear_arith)
        requires
            0 <= n,
            1 <= parts,
    ;
}

/// Whether a cast of an instant to the type comes to an end.
fn is_instant_castable(count: i64, unit: TimeUnit, zone: &Option<String>, target: &DataType) -> (r:
    bool)
    ensures
        r == match *zone {
            Some(z) => (target@ is Date32 || target@.textual()) ==> told_in(
                count as int,
                per_second(unit),
                z@,
            ),
            None => match target@ {
                DataTypeView::Timestamp(to, Some(z)) => brought_into(
                    count as int,
                    per_second(unit),
                    per_second(to),
                    z,
                ),
                _ => true,
            },
        },
{
    match (zone, target) {
        (Some(z), DataType::Date32)
        | (Some(z), DataType::Utf8)
        | (Some(z), DataType::Utf8View)
        | (Some(z), DataType::LargeUtf8) => is_told_in(count, parts_of(unit), z),
        (None, DataType::Timestamp(to, Some(z))) => is_brought_into(
            count,
            parts_of(unit),
            parts_of(*to),
            z,
        ),
        _ => true,
    }
}

/// Whether a text can be read as a decimal, or fails to be one.
fn is_readable(text: &[u8]) -> (r: bool)
    ensures
        r == readable(text@),
{
    let mut first: Option<usize> = None;
    for j in 0..text.len()
        invariant
            match first {
                Some(f) => {
                    &&& f < j
                    &&& 0x31 <= text@[f as int] <= 0x39
                    &&& forall|i: int| 0 <= i < f ==> !(0x31 <= #[trigger] text@[i] <= 0x39)
                },
                None => forall|i: int| 0 <= i < j ==> !(0x31 <= #[trigger] text@[i] <= 0x39),
            },
            forall|i: int, k: int|
                0 <= i <= k < j && 0x31 <= #[trigger] text@[i] <= 0x39 && 0x30 <= #[trigger] text@[k]
                    <= 0x39 ==> k - i < DECIMAL_BYTES,
    {
        let b: u8 = text[j];
        if first.is_none() && 0x31 <= b && b <= 0x39 {
            first = Some(j);
        }
        if 0x30 <= b && b <= 0x39 {
            if let Some(f) = first {
                if j - f >= DECIMAL_BYTES {
                    assert(0x31 <= text@[f as int] <= 0x39 && 0x30 <= text@[j as int] <= 0x39);
                    return false;
                }
            }
        }
    }
    true
}

/// The text that a value holds, where it holds one.
fn text_in(value: &ScalarValue) -> (r: Option<&String>)
    requires
        !(value@.data_type is Dictionary),
    ensures
        match r {
            Some(t) => value@.value == Some(Datum::Text(t@)),
            None => !(value@.value matches Some(Datum::Text(_))),
        },
{
    match value {
        ScalarValue::Utf8(Some(t)) => Some(t),
        ScalarValue::Utf8View(Some(t)) => Some(t),
        ScalarValue::LargeUtf8(Some(t)) => Some(t),
        _ => None,
    }
}

/// The bytes that a value holds, where it holds some, and their fixed size.
fn bytes_in(value: &ScalarValue) -> (r: Option<(&Vec<u8>, Option<i32>)>)
    requires
        !(value@.data_type is Dictionary),
    ensures
        match r {
            Some((b, n)) => {
                &&& value@.value == Some(Datum::Bytes(b@))
                &&& match n {
                    Some(n) => value@.data_type == DataTypeView::FixedSizeBinary(n),
                    None => !(value@.data_type is FixedSizeBinary),
                }
            },
            None => !(value@.value matches Some(Datum::Bytes(_))),
        },
{
    match value {
        ScalarValue::Binary(Some(b)) => Some((b, None)),
        ScalarValue::LargeBinary(Some(b)) => Some((b, None)),
        ScalarValue::BinaryView(Some(b)) => Some((b, None)),
        ScalarValue::FixedSizeBinary(n, Some(b)) => Some((b, Some(*n))),
        _ => None,
    }
}

/// Whether the value can be laid out as Arrow's arrays do.
fn is_storable(value: &ScalarValue) -> (r: bool)
    ensures
        r == storable(value@.value, value@.data_type.plain()),
    decreases value,
{
    if let ScalarValue::Dictionary(_, x) = value {
        return is_storable(&**x);
    }
    if let Some(t) = text_in(value) {
        return t.as_str().as_bytes().len() <= i32::MAX as usize;
    }
    if let ScalarValue::FixedSizeBinary(n, None) = value {
        return *n <= FIXED_BYTES;
    }
    match bytes_in(value) {
        Some((b, Some(n))) => b.len() <= i32::MAX as usize && n >= 0 && b.len() == n as usize,
        Some((b, None)) => b.len() <= i32::MAX as usize,
        None => true,
    }
}

/// The digits that the decimals of a type can have, and their precision and
/// scale.
fn parts_of_decimal(t: &DataType) -> (r: Option<(i32, u8, i8)>)
    ensures
        r is Some <==> decimal_parts(t@) is Some,
        r is Some ==> (r->0).0 == (decimal_parts(t@)->0).0,
        r is Some ==> (r->0).1 == (decimal_parts(t@)->0).1,
        r is Some ==> (r->0).2 == (decimal_parts(t@)->0).2,
{
    match t {
        DataType::Decimal32(p, s) => Some((9, *p, *s)),
        DataType::Decimal64(p, s) => Some((18, *p, *s)),
        DataType::Decimal128(p, s) => Some((38, *p, *s)),
        DataType::Decimal256(p, s) => Some((76, *p, *s)),
        _ => None,
    }
}

/// Whether every decimal of a precision and a scale has room in another type, and
/// the scales are not too far apart.
fn room_and_reach(p: u8, s: i8, q: u8, t: i8) -> (r: (bool, bool))
    ensures
        r.0 == (if s <= t {
            p + (t - s) <= q
        } else {
            p + (t - s) < q
        }),
        r.1 == (-127 <= t - s <= 127 && p + (t - s) <= 127),
{
    let by: i32 = (t as i32) - (s as i32);
    let sum: i32 = (p as i32) + by;
    let room = if s <= t {
        sum <= q as i32
    } else {
        sum < q as i32
    };
    (room, -127 <= by && by <= 127 && sum <= 127)
}

/// An integer of 128 bits as one of 256 bits.
fn widened(v: i128) -> (r: Int256)
    ensures
        r@ == v,
{
    if v >= 0 {
        Int256 { high: 0, low: v as u128 }
    } else {
        let above: i128 = -1 - v;
        Int256 { high: -1, low: u128::MAX - (above as u128) }
    }
}

/// Whether a decimal that is not of the widest type can be brought to another
/// scale.
fn is_rescalable(v: i128, source: &DataType, target: &DataType) -> (r: bool)
    requires
        !(source@ is Decimal256),
        source@.known(),
    ensures
        r == rescales(v as int, source@, target@),
{
    match (parts_of_decimal(source), parts_of_decimal(target)) {
        (Some((digits, p, s)), Some((new_digits, q, t))) => {
            let (room, reach) = room_and_reach(p, s, q, t);
            let (least, greatest): (i128, i128) = match target {
                DataType::Decimal32(_, _) => (i32::MIN as i128, i32::MAX as i128),
                DataType::Decimal64(_, _) => (i64::MIN as i128, i64::MAX as i128),
                _ => (i128::MIN, i128::MAX),
            };
            reach && (new_digits >= digits || !room || (least <= v && v <= greatest)
                || outside_is_valid_precision(widened(v), p))
        },
        _ => true,
    }
}

/// An integer of 256 bits as one of 128 bits, where it fits.
fn narrow(v: Int256) -> (r: Option<i128>)
    ensures
        r is Some <==> i128::MIN <= v@ <= i128::MAX,
        r is Some ==> r->0 == v@,
{
    let limit: u128 = 0x8000_0000_0000_0000_0000_0000_0000_0000;
    if v.high == 0 && v.low < limit {
        Some(v.low as i128)
    } else if v.high == -1 && v.low >= limit {
        let below: u128 = u128::MAX - v.low;
        let r: i128 = -1 - (below as i128);
        Some(r)
    } else {
        None
    }
}

/// Whether a decimal of the widest type can be brought to another scale.
fn is_wide_rescalable(v: Int256, source: &DataType, target: &DataType) -> (r: bool)
    requires
        source@ is Decimal256,
        source@.known(),
    ensures
        r == rescales(v@, source@, target@),
{
    match (parts_of_decimal(source), parts_of_decimal(target)) {
        (Some((_, p, s)), Some((new_digits, q, t))) => {
            let (room, reach) = room_and_reach(p, s, q, t);
            let fits = match (narrow(v), target) {
                (Some(w), DataType::Decimal32(_, _)) => (i32::MIN as i128) <= w && w <= (
                i32::MAX as i128),
                (Some(w), DataType::Decimal64(_, _)) => (i64::MIN as i128) <= w && w <= (
                i64::MAX as i128),
                (w, DataType::Decimal128(_, _)) => w.is_some(),
                _ => false,
            };
            reach && (new_digits >= 76 || !room || fits || outside_is_valid_precision(v, p))
        },
        _ => true,
    }
}

/// The type says more of a cast of its values than that it comes to an end.
spec fn guarded(t: DataTypeView) -> bool {
    t is Time32Second || t is Time64Microsecond || t is Timestamp || t is Date32 || t is Date64
        || t.decimal()
}

/// Whether a cast of a time of day, counted in seconds, comes to an end.
fn is_time32_castable(v: i32, target: &DataType) -> (r: bool)
    ensures
        r == plain_castable(Some(Datum::Integer(v as int)), DataTypeView::Time32Second, target@),
{
    match target {
        DataType::Time32Millisecond => {
            let product: i64 = (v as i64) * 1_000;
            (i32::MIN as i64) <= product && product <= (i32::MAX as i64)
        },
        _ => true,
    }
}

/// Whether a cast of a time of day, counted in microseconds, comes to an end.
fn is_time64_castable(v: i64, target: &DataType) -> (r: bool)
    ensures
        r == plain_castable(
            Some(Datum::Integer(v as int)),
            DataTypeView::Time64Microsecond,
            target@,
        ),
{
    match target {
        DataType::Time64Nanosecond => {
            let product: i128 = (v as i128) * 1_000;
            (i64::MIN as i128) <= product && product <= (i64::MAX as i128)
        },
        _ => true,
    }
}

/// Whether a cast of a date, counted in days, comes to an end.
fn is_date32_castable(v: i32, target: &DataType) -> (r: bool)
    ensures
        r == plain_castable(Some(Datum::Integer(v as int)), DataTypeView::Date32, target@),
{
    match target {
        DataType::Timestamp(to, Some(zone)) => is_brought_into(
            (v as i64) * 86_400,
            1,
            parts_of(*to),
            zone,
        ),
        _ => true,
    }
}

/// Whether a cast of a date, counted in milliseconds, comes to an end.
fn is_date64_castable(v: i64, target: &DataType) -> (r: bool)
    ensures
        r == plain_castable(Some(Datum::Integer(v as int)), DataTypeView::Date64, target@),
{
    match target {
        DataType::Timestamp(to, Some(zone)) => is_brought_into(v, 1_000, parts_of(*to), zone),
        _ => true,
    }
}

/// Whether a cast of an instant comes to an end.
fn is_timestamp_castable(value: &ScalarValue, target: &DataType) -> (r: bool)
    requires
        value@.data_type is Timestamp,
    ensures
        r == plain_castable(value@.value, value@.data_type, target@),
{
    match value {
        ScalarValue::TimestampSecond(Some(v), zone) => is_instant_castable(
            *v,
            TimeUnit::Second,
            zone,
            target,
        ),
        ScalarValue::TimestampMillisecond(Some(v), zone) => is_instant_castable(
            *v,
            TimeUnit::Millisecond,
            zone,
            target,
        ),
        ScalarValue::TimestampMicrosecond(Some(v), zone) => is_instant_castable(
            *v,
            TimeUnit::Microsecond,
            zone,
            target,
        ),
        ScalarValue::TimestampNanosecond(Some(v), zone) => is_instant_castable(
            *v,
            TimeUnit::Nanosecond,
            zone,
            target,
        ),
        _ => true,
    }
}

/// Whether a cast of a decimal comes to an end.
fn is_decimal_castable(value: &ScalarValue, target: &DataType) -> (r: bool)
    requires
        value@.data_type.decimal(),
        value@.data_type.known(),
    ensures
        r == plain_castable(value@.value, value@.data_type, target@),
{
    match value {
        ScalarValue::Decimal32(Some(v), _, _) => is_rescalable(
            *v as i128,
            &value.data_type(),
            target,
        ),
        ScalarValue::Decimal64(Some(v), _, _) => is_rescalable(
            *v as i128,
            &value.data_type(),
            target,
        ),
        ScalarValue::Decimal128(Some(v), _, _) => is_rescalable(*v, &value.data_type(), target),
        ScalarValue::Decimal256(Some(v), _, _) => is_wide_rescalable(
            *v,
            &value.data_type(),
            target,
        ),
        _ => true,
    }
}

/// Whether a cast of the value to the type comes to an end, where neither is that
/// of a dictionary.
#[verifier::rlimit(40)]
fn is_plain_castable(value: &ScalarValue, target: &DataType) -> (r: bool)
    requires
        !(value@.data_type is Dictionary),
        value@.data_type.known(),
    ensures
        r == plain_castable(value@.value, value@.data_type, target@),
{
    if let Some(t) = text_in(value) {
        return !is_decimal(target) || is_readable(t.as_str().as_bytes());
    }
    match value {
        ScalarValue::Time32Second(Some(v)) => is_time32_castable(*v, target),
        ScalarValue::Time64Microsecond(Some(v)) => is_time64_castable(*v, target),
        ScalarValue::TimestampSecond(_, _)
        | ScalarValue::TimestampMillisecond(_, _)
        | ScalarValue::TimestampMicrosecond(_, _)
        | ScalarValue::TimestampNanosecond(_, _) => is_timestamp_castable(value, target),
        ScalarValue::Date32(Some(v)) => is_date32_castable(*v, target),
        ScalarValue::Date64(Some(v)) => is_date64_castable(*v, target),
        ScalarValue::Decimal32(_, _, _)
        | ScalarValue::Decimal64(_, _, _)
        | ScalarValue::Decimal128(_, _, _)
        | ScalarValue::Decimal256(_, _, _) => is_decimal_castable(value, target),
        _ => {
            assert(value@.value matches Some(Datum::Integer(_)) ==> !guarded(value@.data_type));
            true
        },
    }
}

/// Whether the values of the type are decimals.
fn is_decimal(t: &DataType) -> (r: bool)
    ensures
        r == t@.decimal(),
{
    match t {
        DataType::Decimal32(_, _)
        | DataType::Decimal64(_, _)
        | DataType::Decimal128(_, _)
        | DataType::Decimal256(_, _) => true,
        _ => false,
    }
}

/// Whether the values of the type are dates or times.
fn is_temporal(t: &DataType) -> (r: bool)
    ensures
        r == t@.temporal(),
{
    match t {
        DataType::Date32
        | DataType::Date64
        | DataType::Time32Second
        | DataType::Time32Millisecond
        | DataType::Time64Microsecond
        | DataType::Time64Nanosecond
        | DataType::Timestamp(_, _) => true,
        _ => false,
    }
}

/// Whether a cast of the value to the type comes to an end, once it is laid out.
fn is_castable_between(value: &ScalarValue, target: &DataType) -> (r: bool)
    requires
        value@.data_type.known(),
    ensures
        r == castable_between(value@.value, value@.data_type, target@),
    decreases value, target,
{
    match (value, target) {
        (ScalarValue::Dictionary(_, x), DataType::Dictionary(_, t)) => is_castable_between(
            &**x,
            &**t,
        ),
        (ScalarValue::Dictionary(_, x), _) => is_castable_between(&**x, target),
        (_, DataType::Dictionary(_, t)) => is_temporal(&**t) || (is_castable_between(value, &**t)
            && match &**t {
            DataType::FixedSizeBinary(n) => *n <= FIXED_BYTES,
            _ => true,
        }),
        _ => is_plain_castable(value, target),
    }
}

/// The unit of the instants of a type, or of those that its dictionaries hold.
fn unit_of(t: &DataType) -> (r: Option<TimeUnit>)
    ensures
        match r {
            Some(unit) => t@.plain() matches DataTypeView::Timestamp(u, _) && u == unit,
            None => !(t@.plain() is Timestamp),
        },
    decreases t,
{
    match t {
        DataType::Timestamp(unit, _) => Some(*unit),
        DataType::Dictionary(_, t) => unit_of(&**t),
        _ => None,
    }
}

/// Whether the count of a date in a unit is one of 64 bits.
fn is_date_fitting(value: &ScalarValue, target: &DataType) -> (r: bool)
    ensures
        r == date_fits(value@.value, value@.data_type.plain(), target@.plain()),
    decreases value,
{
    match (value, unit_of(target)) {
        (ScalarValue::Dictionary(_, x), _) => is_date_fitting(&**x, target),
        (ScalarValue::Date32(Some(v)), Some(unit)) => {
            let by: i64 = 86_400 * parts_of(unit);
            (*v as i64).checked_mul(by).is_some()
        },
        (ScalarValue::Date64(Some(v)), Some(unit)) => {
            let parts: i64 = parts_of(unit);
            let by: i64 = if parts > 1_000 {
                parts / 1_000
            } else {
                1
            };
            v.checked_mul(by).is_some()
        },
        _ => {
            assert(value@.value matches Some(Datum::Integer(_)) && target@.plain() is Timestamp
                ==> !(value@.data_type.plain() is Date32) && !(value@.data_type.plain() is Date64));
            true
        },
    }
}

/// Whether a cast of the value to the type comes to an end.
fn is_castable(value: &ScalarValue, target: &DataType) -> (r: bool)
    requires
        value@.data_type.known(),
    ensures
        r == castable(value@, target@),
{
    let in_dictionary = match value {
        ScalarValue::Dictionary(_, _) => true,
        _ => false,
    };
    is_storable(value) && is_castable_between(value, target) && (!in_dictionary || is_date_fitting(
        value,
        target,
    ))
}

/// Casts a value to a type.
pub fn cast_to(value: &ScalarValue, target: &DataType) -> (r: Result<ScalarValue, Error>)
    ensures
        r is Ok <==> cast(value@, target@) is Some,
        r is Ok ==> r->Ok_0@ == cast(value@, target@)->0,
        r is Ok ==> r->Ok_0@.data_type == target@ && target@.known(),
        r is Err ==> r->Err_0 == Error::Cast,
{
    if !value.data_type().known() || !target.known() || !is_castable(value, target) {
        return Err(Error::Cast);
    }
    match outside_cast_to(value, target) {
        Ok(r) => {
            proof {
                lemma_scalar_well_typed(r);
            }
            if r.data_type().same(target) {
                Ok(r)
            } else {
                Err(Error::Cast)
            }
        },
        Err(_) => Err(Error::Cast),
    }
}

} // verus!
