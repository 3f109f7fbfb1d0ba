//! What filters become: which of them are kept as equalities and ranges, so that
//! they can be compared with those of a view.
use vstd::arithmetic::power::pow;
use vstd::prelude::*;
use vstd::utf8::encode_utf8;

use crate::error::ErrorView;
use crate::expr::{
    all_conjuncts, lemma_position, negated, negations_are_opposites, opposites, position, ExprView,
    Operator,
};
use crate::interval::{
    cast, cast_result, castable, castable_between, date_parts, meant_second, offset_at,
    plain_castable, IntervalView,
};
use crate::names::ColumnView;
use crate::plan::{
    all_outputs, collect, flat, flat_column, flats, scope_of, PlanNodeView, PlanView, ScopeView,
};
use crate::rewrite::class::{
    difference, lemma_difference, lemma_union, lemma_with_column, sorted, union,
};
use crate::rewrite::column_laws::{lemma_never_repeated, outcomes_are_collected_in_order};
use crate::rewrite::normal_form::{all_over_output, conjunction, normal_form, over_output, SpjView};
use crate::rewrite::plan_laws::lemma_collect;
use crate::rewrite::predicate::{
    all_normal, bound, class_filters, class_index, collected, column_compared, common, comparison,
    confined, conjoined, equated, first_known, lemma_bound_valid, lemma_class_index,
    lemma_class_index_unique, lemma_flattened_one, normal, partition, range_filter, ranged_class,
    representative, within, CollectedView, PredicateView,
};
use crate::rewrite::semantics::{
    bound_describes_comparison, compares, intersection_is_conjunction, member,
};
use crate::rewrite::soundness::{
    distinct_names, has_bare_column, have_bare_columns, lemma_first_known,
};
use crate::scalar::{lemma_scalar_lt_total, DataTypeView, Datum, KeyType, ScalarView, TimeUnit};
use crate::schema::{field_of, first_repeated, qualified, schema_columns};

verus! {

// ---------------------------------------------------------------------------
// Casts
// ---------------------------------------------------------------------------

proof fn lemma_own_castable(value: Option<Datum>, t: DataTypeView)
    requires
        t.known(),
        (ScalarView { data_type: t, value }).well_typed(),
    ensures
        castable_between(value, t, t),
    decreases t,
{
    if let DataTypeView::Dictionary(_, u) = t {
        lemma_own_castable(value, *u);
    } else {
        assert(plain_castable(value, t, t));
    }
}

/// A value keeps what it is when it is cast to its own type. A text must be one
/// that Arrow's arrays can hold; bytes are left out, of which those of a fixed size
/// must have that size.
pub proof fn values_keep_their_own_type(value: ScalarView)
    requires
        value.data_type.known(),
        value.well_typed(),
        !value.data_type.plain().binary(),
        value.value matches Some(Datum::Text(t)) ==> encode_utf8(t).len() <= i32::MAX,
    ensures
        cast(value, value.data_type) == Some(value),
{
    lemma_own_castable(value.value, value.data_type);
}

/// A cast of a value of one type to another, neither a dictionary, always comes to
/// an end: it does not bring a time into a time zone, or tell it in one, nor tell a
/// time of day in a finer unit of the same size, nor change the digits of a decimal
/// or read them from a text.
pub open spec fn always_ends(source: DataTypeView, target: DataTypeView) -> bool {
    &&& !(source is Dictionary) && !(target is Dictionary)
    &&& !source.binary()
    &&& !(source.decimal() && target.decimal())
    &&& !(source.textual() && target.decimal())
    &&& !(source is Time32Second && target is Time32Millisecond)
    &&& !(source is Time64Microsecond && target is Time64Nanosecond)
    &&& !((source matches DataTypeView::Timestamp(_, Some(_))) && (target is Date32
        || target.textual()))
    &&& !((source is Date32 || source is Date64 || (source matches DataTypeView::Timestamp(
        _,
        None,
    ))) && (target matches DataTypeView::Timestamp(_, Some(_))))
}

/// A value is cast to another type wherever the cast always comes to an end: what
/// the cast gives is taken, where it is a value of that type.
pub proof fn casts_that_end_are_made(value: ScalarView, target: DataTypeView, w: ScalarView)
    requires
        value.data_type.known(),
        target.known(),
        value.well_typed(),
        always_ends(value.data_type, target),
        value.value matches Some(Datum::Text(t)) ==> encode_utf8(t).len() <= i32::MAX,
        value.data_type != target,
    ensures
        cast(value, target) == Some(w) <==> cast_result(value, target) == Some(w) && w.data_type
            == target && w.well_typed(),
        cast_result(value, target) is None ==> cast(value, target) is None,
{
    assert(castable_between(value.value, value.data_type, target));
}

/// A time of day is told in a finer unit of the same size where its count fits.
pub proof fn times_of_day_are_cast_where_they_fit(v: int)
    ensures
        ({
            let seconds = ScalarView {
                data_type: DataTypeView::Time32Second,
                value: Some(Datum::Integer(v)),
            };
            castable(seconds, DataTypeView::Time32Millisecond) <==> -2_147_483_648 <= v * 1_000
                <= 2_147_483_647
        }),
        ({
            let micros = ScalarView {
                data_type: DataTypeView::Time64Microsecond,
                value: Some(Datum::Integer(v)),
            };
            castable(micros, DataTypeView::Time64Nanosecond) <==> i64::MIN <= v * 1_000 <= i64::MAX
        }),
{
}

/// An instant is told in its time zone where the zone has no time for it, or one
/// that is not before the year -262143 nor after the year 262142.
pub proof fn instants_are_told_where_the_calendar_reaches(
    v: int,
    zone: Seq<char>,
    unit: TimeUnit,
    parts: int,
    target: DataTypeView,
)
    requires
        target is Date32 || target.textual(),
        unit is Second ==> parts == 1,
        unit is Millisecond ==> parts == 1_000,
        unit is Microsecond ==> parts == 1_000_000,
        unit is Nanosecond ==> parts == 1_000_000_000,
    ensures
        ({
            let instant = ScalarView {
                data_type: DataTypeView::Timestamp(unit, Some(zone)),
                value: Some(Datum::Integer(v)),
            };
            castable(instant, target) <==> (offset_at(zone, v / parts) matches Some(ahead)
                ==> -8_334_601_228_800 * parts <= v + ahead * parts < 8_210_266_876_800 * parts)
        }),
{
}

/// A time without a zone becomes an instant of the zone, in the same unit, where
/// the zone means one second by it.
pub proof fn times_become_instants_where_the_zone_means_one(
    v: int,
    zone: Seq<char>,
    unit: TimeUnit,
    parts: int,
)
    requires
        unit is Second ==> parts == 1,
        unit is Millisecond ==> parts == 1_000,
        unit is Microsecond ==> parts == 1_000_000,
        unit is Nanosecond ==> parts == 1_000_000_000,
    ensures
        ({
            let time = ScalarView {
                data_type: DataTypeView::Timestamp(unit, None),
                value: Some(Datum::Integer(v)),
            };
            castable(time, DataTypeView::Timestamp(unit, Some(zone))) <==> meant_second(
                zone,
                v / parts,
            ) is Some
        }),
{
}

/// A decimal is brought to another scale of a type with as many digits, or more,
/// where the two scales are not too far apart.
pub proof fn decimals_are_cast_where_scales_are_near(value: ScalarView, p: u8, s: i8, q: u8, t: i8)
    requires
        value.value is Some,
        value.well_typed(),
    ensures
        value.data_type == DataTypeView::Decimal128(p, s) ==> (castable(
            value,
            DataTypeView::Decimal128(q, t),
        ) <==> -127 <= t - s <= 127 && p + t - s <= 127),
        value.data_type == DataTypeView::Decimal128(p, s) ==> (castable(
            value,
            DataTypeView::Decimal256(q, t),
        ) <==> -127 <= t - s <= 127 && p + t - s <= 127),
        value.data_type == DataTypeView::Decimal64(p, s) ==> (castable(
            value,
            DataTypeView::Decimal128(q, t),
        ) <==> -127 <= t - s <= 127 && p + t - s <= 127),
        value.data_type == DataTypeView::Decimal32(p, s) ==> (castable(
            value,
            DataTypeView::Decimal32(q, t),
        ) <==> -127 <= t - s <= 127 && p + t - s <= 127),
{
}

/// A text that is not too long is read as a decimal.
pub proof fn short_texts_are_read_as_decimals(text: Seq<char>, t: DataTypeView)
    requires
        t.decimal(),
        encode_utf8(text).len() <= 256,
    ensures
        ({
            let value = ScalarView { data_type: DataTypeView::Utf8, value: Some(Datum::Text(text)) };
            castable(value, t)
        }),
{
}

/// What a dictionary holds is cast as it is without the dictionary, but for dates
/// that become instants.
pub proof fn dictionaries_are_cast_as_what_they_hold(
    value: ScalarView,
    key: KeyType,
    target: DataTypeView,
)
    requires
        !(value.data_type is Dictionary),
        !(target is Dictionary),
        !(target is Timestamp),
    ensures
        ({
            let held = ScalarView {
                data_type: DataTypeView::Dictionary(key, Box::new(value.data_type)),
                value: value.value,
            };
            castable(held, target) <==> castable(value, target)
        }),
{
}

/// Bytes keep what they are when they are cast to their own type, where Arrow's
/// arrays can hold so many; bytes of a fixed size are those of that size.
pub proof fn bytes_keep_their_own_type(value: ScalarView, bytes: Seq<u8>)
    requires
        value.data_type.known(),
        value.well_typed(),
        value.value == Some(Datum::Bytes(bytes)),
    ensures
        !(value.data_type.plain() is FixedSizeBinary) ==> (cast(value, value.data_type) == Some(
            value,
        ) <==> bytes.len() <= i32::MAX),
        value.data_type.plain() matches DataTypeView::FixedSizeBinary(n) ==> (cast(
            value,
            value.data_type,
        ) == Some(value) <==> bytes.len() == n),
{
    lemma_own_castable(value.value, value.data_type);
}

/// A time without a zone, or a date, becomes an instant of the zone where the zone
/// means one second by it. A time that is brought into a coarser unit first loses
/// what is less than one of that unit, towards the start of the count.
pub proof fn times_become_instants_in_other_units(
    v: int,
    zone: Seq<char>,
    unit: TimeUnit,
    to: TimeUnit,
    left: int,
)
    requires
        unit is Millisecond,
        0 <= left < 1_000,
    ensures
        ({
            let target = DataTypeView::Timestamp(to, Some(zone));
            let at = |data_type: DataTypeView, count: int|
                castable(ScalarView { data_type, value: Some(Datum::Integer(count)) }, target);
            let means = |second: int| meant_second(zone, second) is Some;
            &&& at(DataTypeView::Timestamp(TimeUnit::Second, None), v) <==> means(v)
            &&& !(to is Second) ==> (at(DataTypeView::Timestamp(unit, None), v) <==> means(
                v / 1_000,
            ))
            &&& to is Second && v >= 0 ==> (at(
                DataTypeView::Timestamp(unit, None),
                v * 1_000 + left,
            ) <==> means(v))
            &&& to is Second && v <= 0 ==> (at(
                DataTypeView::Timestamp(unit, None),
                v * 1_000 - left,
            ) <==> means(v))
            &&& at(DataTypeView::Date32, v) <==> means(v * 86_400)
            &&& !(to is Second) ==> (at(DataTypeView::Date64, v) <==> means(v / 1_000))
            &&& to is Second && v >= 0 ==> (at(DataTypeView::Date64, v * 1_000 + left) <==> means(v))
            &&& to is Second && v <= 0 ==> (at(DataTypeView::Date64, v * 1_000 - left) <==> means(v))
        }),
{
}

/// A date in a dictionary becomes an instant where its count in the unit is one of
/// 64 bits.
pub proof fn dates_of_dictionaries_become_instants_where_they_fit(v: int, key: KeyType)
    ensures
        ({
            let at = |data_type: DataTypeView, unit: TimeUnit|
                castable(
                    ScalarView {
                        data_type: DataTypeView::Dictionary(key, Box::new(data_type)),
                        value: Some(Datum::Integer(v)),
                    },
                    DataTypeView::Timestamp(unit, None),
                );
            let fits = |count: int| i64::MIN <= count <= i64::MAX;
            &&& at(DataTypeView::Date32, TimeUnit::Second) <==> fits(v * 86_400)
            &&& at(DataTypeView::Date32, TimeUnit::Millisecond) <==> fits(v * 86_400_000)
            &&& at(DataTypeView::Date32, TimeUnit::Microsecond) <==> fits(v * 86_400_000_000)
            &&& at(DataTypeView::Date32, TimeUnit::Nanosecond) <==> fits(v * 86_400_000_000_000)
            &&& at(DataTypeView::Date64, TimeUnit::Second) <==> fits(v)
            &&& at(DataTypeView::Date64, TimeUnit::Millisecond) <==> fits(v)
            &&& at(DataTypeView::Date64, TimeUnit::Microsecond) <==> fits(v * 1_000)
            &&& at(DataTypeView::Date64, TimeUnit::Nanosecond) <==> fits(v * 1_000_000)
        }),
{
    lemma_date_in_dictionary(v, key, DataTypeView::Date32, TimeUnit::Second);
    lemma_date_in_dictionary(v, key, DataTypeView::Date32, TimeUnit::Millisecond);
    lemma_date_in_dictionary(v, key, DataTypeView::Date32, TimeUnit::Microsecond);
    lemma_date_in_dictionary(v, key, DataTypeView::Date32, TimeUnit::Nanosecond);
    lemma_date_in_dictionary(v, key, DataTypeView::Date64, TimeUnit::Second);
    lemma_date_in_dictionary(v, key, DataTypeView::Date64, TimeUnit::Millisecond);
    lemma_date_in_dictionary(v, key, DataTypeView::Date64, TimeUnit::Microsecond);
    lemma_date_in_dictionary(v, key, DataTypeView::Date64, TimeUnit::Nanosecond);
}

proof fn lemma_date_in_dictionary(v: int, key: KeyType, date: DataTypeView, unit: TimeUnit)
    requires
        date is Date32 || date is Date64,
    ensures
        castable(
            (ScalarView {
                data_type: DataTypeView::Dictionary(key, Box::new(date)),
                value: Some(Datum::Integer(v)),
            }),
            DataTypeView::Timestamp(unit, None),
        ) <==> i64::MIN <= v * date_parts(date, unit) <= i64::MAX,
{
    let value = Some(Datum::Integer(v));
    let source = DataTypeView::Dictionary(key, Box::new(date));
    let target = DataTypeView::Timestamp(unit, None);
    assert(castable_between(value, date, target) == plain_castable(value, date, target));
    assert(castable_between(value, source, target) == castable_between(value, date, target));
    assert(source.plain() == date.plain());
    assert(date.plain() == date);
}

/// A value is put into a dictionary as it is cast to what the dictionary holds; into
/// one of dates or times it always is.
pub proof fn dictionaries_take_in_what_can_be_cast(
    value: ScalarView,
    key: KeyType,
    held: DataTypeView,
)
    requires
        !(value.data_type is Dictionary),
        !value.data_type.binary(),
        value.value matches Some(Datum::Text(t)) ==> encode_utf8(t).len() <= i32::MAX,
        value.value matches Some(Datum::Bytes(_)) ==> false,
    ensures
        ({
            let target = DataTypeView::Dictionary(key, Box::new(held));
            &&& held.temporal() ==> castable(value, target)
            &&& !held.temporal() && !(held is FixedSizeBinary) && !(held is Dictionary) ==> (
            castable(value, target) <==> castable(value, held))
        }),
{
}

/// A decimal is brought to a scale of a type with fewer digits where the scales are
/// near, and it has no more digits than its own type says.
pub proof fn decimals_are_narrowed_where_they_have_their_digits(
    v: int,
    p: u8,
    s: i8,
    q: u8,
    t: i8,
)
    requires
        -pow(10, p as nat) < v < pow(10, p as nat),
    ensures
        ({
            let near = -127 <= t - s <= 127 && p + t - s <= 127;
            let at = |source: DataTypeView, target: DataTypeView|
                castable(ScalarView { data_type: source, value: Some(Datum::Integer(v)) }, target);
            &&& at(DataTypeView::Decimal64(p, s), DataTypeView::Decimal32(q, t)) <==> near
            &&& at(DataTypeView::Decimal128(p, s), DataTypeView::Decimal32(q, t)) <==> near
            &&& at(DataTypeView::Decimal128(p, s), DataTypeView::Decimal64(q, t)) <==> near
            &&& at(DataTypeView::Decimal256(p, s), DataTypeView::Decimal128(q, t)) <==> near
        }),
{
}

/// A text of too many digits is not read as a decimal.
pub proof fn long_decimals_are_not_read(text: Seq<char>, t: DataTypeView, i: int, j: int)
    requires
        t.decimal(),
        0 <= i,
        i + 256 <= j < encode_utf8(text).len(),
        0x31 <= encode_utf8(text)[i] <= 0x39,
        0x30 <= encode_utf8(text)[j] <= 0x39,
    ensures
        !castable((ScalarView { data_type: DataTypeView::Utf8, value: Some(Datum::Text(text)) }), t),
{
}

// ---------------------------------------------------------------------------
// Comparisons
// ---------------------------------------------------------------------------

/// The comparison with a value has a range: it is not strict, or strict on a type
/// of which each value has a next one. A span of time has a next one where its last
/// part can grow, and one before it where that part can shrink.
pub open spec fn has_range(op: Operator, w: ScalarView) -> bool {
    ||| op == Operator::Eq || op == Operator::LtEq || op == Operator::GtEq
    ||| (op == Operator::Lt || op == Operator::Gt) && w.data_type.discrete()
    ||| w.data_type.spanning() && (w.value matches Some(Datum::Span(_, _, last)) ==> {
        ||| op == Operator::Lt && w.data_type.least_part() < last
        ||| op == Operator::Gt && last < w.data_type.greatest_part()
    }) && (op == Operator::Lt || op == Operator::Gt)
}

/// A value of a type that does not compare with another as an operator says.
pub open spec fn refutes(x: ScalarView, op: Operator, w: ScalarView) -> bool {
    x.data_type == w.data_type && x.well_typed() && !x.is_null() && !compares(op, x, w)
}

proof fn lemma_bound_exists(op: Operator, w: ScalarView, x: ScalarView)
    requires
        w.data_type.known(),
        w.well_typed(),
        has_range(op, w),
        refutes(x, op, w),
    ensures
        bound(op, w) is Ok,
{
    if !w.is_null() {
        lemma_scalar_lt_total(x, w);
        lemma_scalar_lt_total(w, x);
        lemma_bound_valid(op, w);
    }
}

/// A comparison of a column with a value of its type narrows the range of the
/// column's class to the values that compare so, and changes nothing else: no
/// residual filter is kept of it. Comparisons that every value of the type meets
/// are left out.
pub proof fn comparisons_narrow_ranges(
    p: PredicateView,
    c: ColumnView,
    op: Operator,
    v: ScalarView,
    metadata: Option<u64>,
    w: ScalarView,
    x: ScalarView,
    y: ScalarView,
)
    requires
        p.well_formed(),
        field_of(p.schema, c) is Ok,
        cast(v, field_of(p.schema, c)->Ok_0.data_type) == Some(w),
        class_index(p.classes, c) is Some,
        p.ranges[class_index(p.classes, c)->0] matches Some(r) ==> r.data_type() == w.data_type,
        has_range(op, w),
        refutes(x, op, w),
        y.data_type == w.data_type,
        y.well_typed(),
    ensures
        conjoined(
            p,
            comparison(ExprView::Column(c), op, ExprView::Literal(v, metadata)),
        ) matches Some(Ok(q)) && {
            let i = class_index(p.classes, c)->0;
            &&& q.residuals == p.residuals
            &&& q.classes == p.classes
            &&& q.schema == p.schema && q.tables == p.tables
            &&& q.ranges.len() == p.ranges.len()
            &&& forall|k: int|
                0 <= k < p.ranges.len() && k != i ==> #[trigger] q.ranges[k] == p.ranges[k]
            &&& q.ranges[i] is Some && member(q.ranges[i]->0, y) <==> p.ranges[i] is Some && member(
                p.ranges[i]->0,
                y,
            ) && compares(op, y, w)
        },
{
    let i = class_index(p.classes, c)->0;
    let q = column_compared(p, c, op, v, metadata);
    lemma_class_index(p.classes, c);
    lemma_bound_exists(op, w, x);
    lemma_bound_valid(op, w);
    let new = bound(op, w)->Ok_0;
    assert(common(p.ranges[i], new) is Ok);
    let range = common(p.ranges[i], new)->Ok_0;
    assert(q.ranges == p.ranges.update(i, range));
    bound_describes_comparison(op, w, y);
    if p.ranges[i] is Some && new is Some {
        intersection_is_conjunction(p.ranges[i]->0, new->0, y);
    }
}

/// What a comparison becomes does not depend on the side on which the column
/// stands: a literal on the left is read as the exchanged comparison.
pub proof fn sides_may_be_exchanged(
    p: PredicateView,
    c: ColumnView,
    v: ScalarView,
    metadata: Option<u64>,
)
    ensures
        ({
            let column = ExprView::Column(c);
            let literal = ExprView::Literal(v, metadata);
            let same = |a: Operator, b: Operator|
                conjoined(p, comparison(literal, a, column)) == conjoined(
                    p,
                    comparison(column, b, literal),
                );
            &&& same(Operator::Eq, Operator::Eq)
            &&& same(Operator::NotEq, Operator::NotEq)
            &&& same(Operator::Lt, Operator::Gt)
            &&& same(Operator::LtEq, Operator::GtEq)
            &&& same(Operator::Gt, Operator::Lt)
            &&& same(Operator::GtEq, Operator::LtEq)
        }),
{
}

/// A negated comparison becomes what the opposite comparison becomes.
pub proof fn negations_are_opposite_comparisons(p: PredicateView, left: ExprView, right: ExprView)
    ensures
        ({
            let same = |a: Operator, b: Operator|
                conjoined(p, ExprView::Not(Box::new(comparison(left, a, right)))) == conjoined(
                    p,
                    comparison(left, b, right),
                );
            &&& same(Operator::Eq, Operator::NotEq)
            &&& same(Operator::NotEq, Operator::Eq)
            &&& same(Operator::Lt, Operator::GtEq)
            &&& same(Operator::LtEq, Operator::Gt)
            &&& same(Operator::Gt, Operator::LtEq)
            &&& same(Operator::GtEq, Operator::Lt)
        }),
{
}

/// A filter that is no comparison is kept as it is, once, and nothing else
/// changes.
pub proof fn other_filters_are_kept(p: PredicateView, e: ExprView)
    requires
        !(e is BinaryExpr),
        e matches ExprView::Not(x) ==> !(*x is BinaryExpr),
    ensures
        conjoined(p, e) matches Some(Ok(q)) && {
            &&& q.residuals.contains(e)
            &&& p.residuals.contains(e) ==> q.residuals == p.residuals
            &&& !p.residuals.contains(e) ==> q.residuals == p.residuals.push(e)
            &&& q.classes == p.classes && q.ranges == p.ranges
            &&& q.schema == p.schema && q.tables == p.tables
        },
{
    assert(p.residuals.push(e)[p.residuals.len() as int] == e);
}

/// An equality of two columns of different classes makes them one class, which has
/// the columns of both, and the range that both have in common. It leaves every
/// other class, its range and the residual filters as they are.
pub proof fn equalities_join_classes(
    p: PredicateView,
    a: ColumnView,
    b: ColumnView,
    i: int,
    j: int,
    y: ScalarView,
)
    requires
        p.well_formed(),
        0 <= i < p.classes.len(),
        0 <= j < p.classes.len(),
        i != j,
        p.classes[i].contains(a),
        p.classes[j].contains(b),
        p.ranges[i] is Some && p.ranges[j] is Some ==> p.ranges[i]->0.data_type()
            == y.data_type && p.ranges[j]->0.data_type() == y.data_type,
        y.well_typed(),
    ensures
        conjoined(p, comparison(ExprView::Column(a), Operator::Eq, ExprView::Column(b))) matches Some(
            Ok(q),
        ) && {
            let low = if i < j {
                i
            } else {
                j
            };
            let high = if i < j {
                j
            } else {
                i
            };
            &&& q.residuals == p.residuals
            &&& q.classes.len() == p.classes.len() - 1
            &&& q.ranges.len() == q.classes.len()
            &&& forall|c: ColumnView| #[trigger]
                q.classes[low].contains(c) <==> p.classes[i].contains(c) || p.classes[j].contains(c)
            &&& forall|k: int|
                0 <= k < q.classes.len() && k != low ==> #[trigger] q.classes[k] == p.classes[if k
                    < high {
                    k
                } else {
                    k + 1
                }] && q.ranges[k] == p.ranges[if k < high {
                    k
                } else {
                    k + 1
                }]
            &&& q.ranges[low] is Some && member(q.ranges[low]->0, y) <==> p.ranges[i] is Some
                && p.ranges[j] is Some && member(p.ranges[i]->0, y) && member(p.ranges[j]->0, y)
        },
{
    lemma_class_index_unique(p.classes, a, i);
    lemma_class_index_unique(p.classes, b, j);
    assert(a != b) by {
        if a == b {
            assert(p.classes[i].contains(a) && p.classes[j].contains(a));
        }
    }
    let (low, high) = if i < j {
        (i, j)
    } else {
        (j, i)
    };
    lemma_union(p.classes[low], p.classes[high]);
    let range = common(p.ranges[low], p.ranges[high])->Ok_0;
    if p.ranges[i] is Some && p.ranges[j] is Some {
        intersection_is_conjunction(p.ranges[low]->0, p.ranges[high]->0, y);
    }
    let q = PredicateView {
        classes: p.classes.update(low, union(p.classes[low], p.classes[high])).remove(high),
        ranges: p.ranges.update(low, range).remove(high),
        ..p
    };
    assert(q.classes[low] == union(p.classes[low], p.classes[high]));
    assert(q.ranges[low] == range);
}

/// An equality of two columns of one class changes nothing: it is known.
pub proof fn known_equalities_change_nothing(
    p: PredicateView,
    a: ColumnView,
    b: ColumnView,
    i: int,
)
    requires
        p.well_formed(),
        0 <= i < p.classes.len(),
        p.classes[i].contains(a),
        p.classes[i].contains(b),
        a != b,
    ensures
        conjoined(p, comparison(ExprView::Column(a), Operator::Eq, ExprView::Column(b))) == Some(
            Ok::<PredicateView, ErrorView>(p),
        ),
{
    lemma_class_index_unique(p.classes, a, i);
    lemma_class_index_unique(p.classes, b, i);
}

/// A column in no class joins the class of a column that it is equal to, on
/// whichever side it stands, and nothing else changes. Two columns in no class make
/// a class, with every value of the type of the first.
pub proof fn new_columns_join_a_class(p: PredicateView, a: ColumnView, b: ColumnView, i: int)
    requires
        p.well_formed(),
        a != b,
        forall|k: int| 0 <= k < p.classes.len() ==> !(#[trigger] p.classes[k]).contains(b),
    ensures
        0 <= i < p.classes.len() && p.classes[i].contains(a) ==> {
            &&& equated(p, a, b) == equated(p, b, a)
            &&& equated(p, a, b) matches Some(Ok(q)) && {
                &&& q.residuals == p.residuals && q.ranges == p.ranges
                &&& q.classes.len() == p.classes.len()
                &&& forall|k: int|
                    0 <= k < p.classes.len() && k != i ==> #[trigger] q.classes[k] == p.classes[k]
                &&& forall|x: ColumnView| #[trigger]
                    q.classes[i].contains(x) <==> p.classes[i].contains(x) || x == b
                &&& sorted(q.classes[i])
            }
        },
        (forall|k: int| 0 <= k < p.classes.len() ==> !(#[trigger] p.classes[k]).contains(a)) ==> {
            &&& field_of(p.schema, a) is Err ==> equated(p, a, b) is None
            &&& field_of(p.schema, a) matches Ok(field) ==> (equated(p, a, b) matches Some(Ok(q)) && {
                let n = p.classes.len() as int;
                &&& q.residuals == p.residuals
                &&& q.classes.len() == n + 1 && q.ranges.len() == n + 1
                &&& forall|k: int|
                    0 <= k < n ==> #[trigger] q.classes[k] == p.classes[k] && q.ranges[k]
                        == p.ranges[k]
                &&& forall|x: ColumnView| #[trigger] q.classes[n].contains(x) <==> x == a || x == b
                &&& q.ranges[n] matches Some(r) && r.lower.data_type == field.data_type && forall|
                    y: ScalarView,
                |
                    member(r, y)
            })
        },
{
    lemma_class_index(p.classes, a);
    lemma_class_index(p.classes, b);
    if let Some(k) = class_index(p.classes, b) {
        assert(p.classes[k].contains(b));
    }
    if 0 <= i < p.classes.len() && p.classes[i].contains(a) {
        lemma_class_index_unique(p.classes, a, i);
        lemma_with_column(p.classes[i], b);
    } else if let Some(k) = class_index(p.classes, a) {
        assert(p.classes[k].contains(a));
    } else {
        lemma_with_column(seq![a], b);
        assert(seq![a].contains(seq![a][0]));
        assert forall|x: ColumnView| #[trigger] seq![a].contains(x) implies x == a by {}
    }
}

// ---------------------------------------------------------------------------
// Conjunctions
// ---------------------------------------------------------------------------

/// A filter is split as far as it goes: none of its conjuncts is a conjunction, or
/// an alias of something.
pub proof fn conjuncts_are_not_conjunctions(e: ExprView)
    ensures
        e.conjuncts().len() > 0,
        forall|i: int|
            0 <= i < e.conjuncts().len() ==> !(#[trigger] e.conjuncts()[i] is Alias) && !(
            e.conjuncts()[i] matches ExprView::BinaryExpr { op, .. } && op == Operator::And),
    decreases e,
{
    match e {
        ExprView::BinaryExpr { left, op: Operator::And, right } => {
            conjuncts_are_not_conjunctions(*left);
            conjuncts_are_not_conjunctions(*right);
            let a = (*left).conjuncts();
            let s = e.conjuncts();
            assert forall|i: int| 0 <= i < s.len() implies !(#[trigger] s[i] is Alias) && !(
            s[i] matches ExprView::BinaryExpr { op, .. } && op == Operator::And) by {
                if i < a.len() {
                    assert(s[i] == a[i]);
                } else {
                    assert(s[i] == (*right).conjuncts()[i - a.len()]);
                }
            }
        },
        ExprView::Alias { expr, .. } => {
            conjuncts_are_not_conjunctions(*expr);
        },
        _ => {
            assert(e.conjuncts() =~= seq![e]);
        },
    }
}

/// A filter that is no conjunction and no alias is its only conjunct, and those of
/// a conjunction are those of its left side and then those of its right side.
pub proof fn conjuncts_come_from_left_to_right(left: ExprView, right: ExprView)
    ensures
        comparison(left, Operator::And, right).conjuncts() == left.conjuncts() + right.conjuncts(),
        !(left is Alias) && !(left matches ExprView::BinaryExpr { op, .. } && op == Operator::And)
            ==> left.conjuncts() == seq![left],
        all_conjuncts(seq![left, right]) == left.conjuncts() + right.conjuncts(),
{
    let s = seq![left, right];
    assert(s.drop_last() =~= seq![left]);
    assert(seq![left].drop_last() =~= Seq::empty());
    assert(all_conjuncts(Seq::<ExprView>::empty()) =~= Seq::empty());
    assert(all_conjuncts(seq![left]) == all_conjuncts(Seq::<ExprView>::empty()) + left.conjuncts());
    assert(Seq::<ExprView>::empty() + left.conjuncts() =~= left.conjuncts());
}

// ---------------------------------------------------------------------------
// Normal expressions
// ---------------------------------------------------------------------------

/// Two expressions differ only in their aliases, and in columns of which each is
/// in one class with the other.
pub open spec fn alike(classes: Seq<Seq<ColumnView>>, a: ExprView, b: ExprView) -> bool
    decreases a, b,
{
    match (a, b) {
        (ExprView::Alias { expr, .. }, _) => alike(classes, *expr, b),
        (_, ExprView::Alias { expr, .. }) => alike(classes, a, *expr),
        (ExprView::Column(c), ExprView::Column(d)) => c == d || exists|i: int|
            0 <= i < classes.len() && #[trigger] classes[i].contains(c) && classes[i].contains(d),
        (ExprView::Literal(_, _), ExprView::Literal(_, _)) => a == b,
        (
            ExprView::BinaryExpr { left: x, op: o, right: y },
            ExprView::BinaryExpr { left: z, op: p, right: w },
        ) => o == p && alike(classes, *x, *z) && alike(classes, *y, *w),
        (ExprView::Not(x), ExprView::Not(y)) => alike(classes, *x, *y),
        (ExprView::Other { id: i, children: s }, ExprView::Other { id: j, children: t }) => i == j
            && s.len() == t.len() && !each_alike(classes, s, t).contains(false),
        _ => false,
    }
}

pub open spec fn each_alike(
    classes: Seq<Seq<ColumnView>>,
    s: Seq<ExprView>,
    t: Seq<ExprView>,
) -> Seq<bool>
    decreases s, t,
{
    Seq::new(
        s.len(),
        |i: int|
            if 0 <= i < s.len() && 0 <= i < t.len() {
                alike(classes, s[i], t[i])
            } else {
                arbitrary()
            },
    )
}

/// Expressions that differ only in columns which are equal, at whatever depth, and
/// in aliases, have one normal form.
pub proof fn alike_expressions_have_one_normal_form(
    classes: Seq<Seq<ColumnView>>,
    a: ExprView,
    b: ExprView,
)
    requires
        partition(classes),
        alike(classes, a, b),
    ensures
        normal(classes, a) == normal(classes, b),
    decreases a, b,
{
    match (a, b) {
        (ExprView::Alias { expr, .. }, _) => {
            alike_expressions_have_one_normal_form(classes, *expr, b);
        },
        (_, ExprView::Alias { expr, .. }) => {
            alike_expressions_have_one_normal_form(classes, a, *expr);
        },
        (ExprView::Column(c), ExprView::Column(d)) => {
            if c != d {
                let i = choose|i: int|
                    0 <= i < classes.len() && #[trigger] classes[i].contains(c)
                        && classes[i].contains(d);
                lemma_class_index_unique(classes, c, i);
                lemma_class_index_unique(classes, d, i);
            }
        },
        (
            ExprView::BinaryExpr { left: x, right: y, .. },
            ExprView::BinaryExpr { left: z, right: w, .. },
        ) => {
            alike_expressions_have_one_normal_form(classes, *x, *z);
            alike_expressions_have_one_normal_form(classes, *y, *w);
        },
        (ExprView::Not(x), ExprView::Not(y)) => {
            alike_expressions_have_one_normal_form(classes, *x, *y);
        },
        (ExprView::Other { children: s, .. }, ExprView::Other { children: t, .. }) => {
            assert forall|i: int| 0 <= i < s.len() implies #[trigger] all_normal(classes, s)[i]
                == all_normal(classes, t)[i] by {
                assert(each_alike(classes, s, t)[i] == alike(classes, s[i], t[i]));
                alike_expressions_have_one_normal_form(classes, s[i], t[i]);
            }
            assert(all_normal(classes, s) =~= all_normal(classes, t));
        },
        _ => {},
    }
}

// ---------------------------------------------------------------------------
// What is refused
// ---------------------------------------------------------------------------

/// Why a comparison of a column with a value gives no range: the operator does not
/// compare, or it is strict on a type without next values, or every value of the
/// type compares so. A comparison with a null has a range without values.
pub proof fn comparisons_are_refused_for_a_reason(op: Operator, w: ScalarView)
    requires
        w.data_type.known(),
        w.well_typed(),
    ensures
        ({
            let equal = op == Operator::Eq || op == Operator::LtEq || op == Operator::GtEq;
            let strict = op == Operator::Lt || op == Operator::Gt;
            let t = w.data_type;
            &&& !equal && !strict ==> bound(op, w) == Err::<Option<IntervalView>, ErrorView>(
                ErrorView::UnsupportedOperator,
            )
            &&& (equal || strict) && w.is_null() ==> bound(op, w) == Ok::<
                Option<IntervalView>,
                ErrorView,
            >(None)
            &&& strict && !w.is_null() && (t.textual() || t.binary() || t.decimal() || t is Date32
                || t is Date64) ==> bound(op, w) == Err::<Option<IntervalView>, ErrorView>(
                ErrorView::StrictBound,
            )
            &&& op == Operator::GtEq && t.unsigned() && w.value == Some(Datum::Integer(0)) ==> bound(
                op,
                w,
            ) == Err::<Option<IntervalView>, ErrorView>(ErrorView::NoBound)
            &&& op == Operator::GtEq && t is Boolean && w.value == Some(Datum::Boolean(false))
                ==> bound(op, w) == Err::<Option<IntervalView>, ErrorView>(ErrorView::NoBound)
            &&& op == Operator::LtEq && t is Boolean && w.value == Some(Datum::Boolean(true))
                ==> bound(op, w) == Err::<Option<IntervalView>, ErrorView>(ErrorView::NoBound)
        }),
{
    lemma_bound_valid(op, w);
}

/// A range of a column is refused where the column is in no class, and else for the
/// reason for which its comparison is.
pub proof fn ranges_need_a_class(
    p: PredicateView,
    c: ColumnView,
    op: Operator,
    w: ScalarView,
    i: int,
)
    requires
        p.well_formed(),
    ensures
        (forall|k: int| 0 <= k < p.classes.len() ==> !(#[trigger] p.classes[k]).contains(c))
            ==> confined(p, c, op, w) == Err::<PredicateView, ErrorView>(
            ErrorView::NoEquivalenceClass(c),
        ),
        0 <= i < p.classes.len() && p.classes[i].contains(c) && bound(op, w) is Err ==> confined(
            p,
            c,
            op,
            w,
        ) == Err::<PredicateView, ErrorView>(bound(op, w)->Err_0),
{
    lemma_class_index(p.classes, c);
    if 0 <= i < p.classes.len() && p.classes[i].contains(c) {
        lemma_class_index_unique(p.classes, c, i);
    }
    if let Some(k) = class_index(p.classes, c) {
        assert(p.classes[k].contains(c));
    }
}

/// The plan below the filters and projections of a plan.
pub open spec fn bottom(plan: PlanView) -> PlanView
    decreases plan,
{
    if (plan.node is Filter || plan.node is Projection) && plan.inputs.len() == 1 {
        bottom(plan.inputs[0])
    } else {
        plan
    }
}

/// A plan of filters and projections over something else than a table is refused:
/// a join as one, and every other node by how it displays itself.
pub proof fn other_plans_are_refused(plan: PlanView)
    ensures
        bottom(plan).node is Join ==> normal_form(plan) == Some(
            Err::<SpjView, ErrorView>(ErrorView::JoinNotSupported),
        ),
        !(bottom(plan).node is Join || bottom(plan).node is TableScan || bottom(plan).node is Filter
            || bottom(plan).node is Projection) ==> normal_form(plan) == Some(
            Err::<SpjView, ErrorView>(ErrorView::UnsupportedPlan(bottom(plan).display)),
        ),
    decreases plan,
{
    if (plan.node is Filter || plan.node is Projection) && plan.inputs.len() == 1 {
        other_plans_are_refused(plan.inputs[0]);
        lemma_refused_below(plan.inputs[0]);
    }
}

proof fn lemma_refused_below(plan: PlanView)
    ensures
        bottom(plan).node is Join ==> collected(plan) == Some(
            Err::<CollectedView, ErrorView>(ErrorView::JoinNotSupported),
        ),
        !(bottom(plan).node is Join || bottom(plan).node is TableScan || bottom(plan).node is Filter
            || bottom(plan).node is Projection) ==> collected(plan) == Some(
            Err::<CollectedView, ErrorView>(ErrorView::UnsupportedPlan(bottom(plan).display)),
        ),
    decreases plan,
{
    if (plan.node is Filter || plan.node is Projection) && plan.inputs.len() == 1 {
        lemma_refused_below(plan.inputs[0]);
    }
}

/// A table with two fields of one name is refused, with the first column that it
/// has a second time.
pub proof fn repeated_fields_are_refused(plan: PlanView, i: int, j: int)
    requires
        plan.node matches PlanNodeView::TableScan { source, .. } && 0 <= i < j < source.len()
            && source[i].name == source[j].name && forall|k: int, l: int|
            0 <= k < l < j ==> (#[trigger] source[k]).name != (#[trigger] source[l]).name,
    ensures
        normal_form(plan) == Some(
            Err::<SpjView, ErrorView>(
                ErrorView::DuplicateField(
                    (ColumnView {
                        relation: Some(plan.node->TableScan_table_name),
                        name: plan.node->source[j].name,
                    }),
                ),
            ),
        ),
{
    let table = plan.node->TableScan_table_name;
    let source = plan.node->source;
    let s = schema_columns(qualified(table, source));
    assert forall|k: int, l: int| 0 <= k < l < j implies s[k] != s[l] by {
        assert(source[k].name != source[l].name);
    }
    lemma_first_repeated(s, i, j);
}

proof fn lemma_first_repeated(s: Seq<ColumnView>, i: int, j: int)
    requires
        0 <= i < j < s.len(),
        s[i] == s[j],
        forall|k: int, l: int| 0 <= k < l < j ==> s[k] != s[l],
    ensures
        first_repeated(s) == Some(s[j]),
    decreases s.len(),
{
    let front = s.drop_last();
    if j < front.len() {
        lemma_first_repeated(front, i, j);
    } else {
        assert forall|k: int, l: int| 0 <= k < l < front.len() implies front[k] != front[l] by {
            assert(s[k] != s[l]);
        }
        lemma_never_repeated(front);
        assert(front[i] == s[j]);
    }
}

// ---------------------------------------------------------------------------
// How filters are written
// ---------------------------------------------------------------------------

/// The range of a column is written as one equality where it has one value, and
/// else with a comparison for each side that has a bound, the lower one first.
pub proof fn ranges_are_written_with_their_bounds(c: ColumnView, range: IntervalView)
    ensures
        ({
            let column = ExprView::Column(c);
            let lower = ExprView::Literal(range.lower, None);
            let upper = ExprView::Literal(range.upper, None);
            let point = !range.lower.is_null() && range.lower == range.upper;
            let s = within(c, range);
            &&& point ==> s == seq![comparison(column, Operator::Eq, lower)]
            &&& !point && !range.lower.is_null() && !range.upper.is_null() ==> s == seq![
                comparison(column, Operator::GtEq, lower),
                comparison(column, Operator::LtEq, upper),
            ]
            &&& !range.lower.is_null() && range.upper.is_null() ==> s == seq![
                comparison(column, Operator::GtEq, lower),
            ]
            &&& range.lower.is_null() && !range.upper.is_null() ==> s == seq![
                comparison(column, Operator::LtEq, upper),
            ]
            &&& range.lower.is_null() && range.upper.is_null() ==> s == Seq::<ExprView>::empty()
        }),
{
    let s = within(c, range);
    let column = ExprView::Column(c);
    let lower = ExprView::Literal(range.lower, None);
    let upper = ExprView::Literal(range.upper, None);
    if !range.is_point() {
        assert(s =~= (if range.lower.is_null() {
            Seq::empty()
        } else {
            seq![comparison(column, Operator::GtEq, lower)]
        }) + (if range.upper.is_null() {
            Seq::empty()
        } else {
            seq![comparison(column, Operator::LtEq, upper)]
        }));
    }
}

/// The filter of a rewrite is the conjunction of all that is left to filter by, in
/// order: splitting it gives back the conjuncts of each of them. There is none
/// where nothing is left.
pub proof fn conjunctions_have_the_conjuncts_of_their_parts(s: Seq<ExprView>)
    ensures
        conjunction(s) is None <==> s.len() == 0,
        conjunction(s) matches Some(e) ==> e.conjuncts() == all_conjuncts(s),
        s.len() == 1 ==> conjunction(s) == Some(s[0]),
    decreases s.len(),
{
    if s.len() > 0 {
        let front = s.drop_last();
        conjunctions_have_the_conjuncts_of_their_parts(front);
        if front.len() == 0 {
            assert(all_conjuncts(front) =~= Seq::empty());
            assert(Seq::empty() + s.last().conjuncts() =~= s.last().conjuncts());
        }
    }
}

// ---------------------------------------------------------------------------
// What expressions keep
// ---------------------------------------------------------------------------

/// The expression has no alias, at whatever depth.
pub open spec fn has_no_alias(e: ExprView) -> bool
    decreases e,
{
    match e {
        ExprView::Column(_) => true,
        ExprView::Literal(_, _) => true,
        ExprView::BinaryExpr { left, right, .. } => has_no_alias(*left) && has_no_alias(*right),
        ExprView::Not(x) => has_no_alias(*x),
        ExprView::Alias { .. } => false,
        ExprView::Other { children, .. } => !have_no_aliases(children).contains(false),
    }
}

pub open spec fn have_no_aliases(s: Seq<ExprView>) -> Seq<bool>
    decreases s,
{
    Seq::new(
        s.len(),
        |i: int|
            if 0 <= i < s.len() {
                has_no_alias(s[i])
            } else {
                arbitrary()
            },
    )
}

/// A normal expression has no alias, and differs from the expression only in that
/// and in columns that are equal.
pub proof fn normal_expressions_are_alike(classes: Seq<Seq<ColumnView>>, e: ExprView)
    requires
        partition(classes),
    ensures
        has_no_alias(normal(classes, e)),
        alike(classes, e, normal(classes, e)),
    decreases e,
{
    match e {
        ExprView::Column(c) => {
            lemma_class_index(classes, c);
            assert(normal(classes, e) == ExprView::Column(representative(classes, c)));
            if let Some(i) = class_index(classes, c) {
                assert(classes[i].contains(classes[i][0]));
                assert(classes[i].contains(c) && classes[i].contains(representative(classes, c)));
            }
            assert(has_no_alias(ExprView::Column(representative(classes, c))));
        },
        ExprView::Literal(_, _) => {},
        ExprView::BinaryExpr { left, op, right } => {
            normal_expressions_are_alike(classes, *left);
            normal_expressions_are_alike(classes, *right);
            assert(normal(classes, e) == comparison(
                normal(classes, *left),
                op,
                normal(classes, *right),
            ));
        },
        ExprView::Not(x) => {
            normal_expressions_are_alike(classes, *x);
            assert(normal(classes, e) == ExprView::Not(Box::new(normal(classes, *x))));
        },
        ExprView::Alias { expr, .. } => {
            normal_expressions_are_alike(classes, *expr);
            assert(normal(classes, e) == normal(classes, *expr));
            assert(has_no_alias(normal(classes, e)));
            assert(alike(classes, e, normal(classes, e)));
        },
        ExprView::Other { id, children } => {
            let s = all_normal(classes, children);
            assert forall|i: int| 0 <= i < children.len() implies #[trigger] each_alike(
                classes,
                children,
                s,
            )[i] by {
                normal_expressions_are_alike(classes, children[i]);
            }
            assert forall|i: int| 0 <= i < s.len() implies #[trigger] have_no_aliases(s)[i] by {
                normal_expressions_are_alike(classes, children[i]);
            }
            assert(normal(classes, e) == (ExprView::Other { id, children: s }));
            assert(!have_no_aliases(s).contains(false));
            assert(!each_alike(classes, children, s).contains(false));
            assert(has_no_alias(normal(classes, e)));
            assert(alike(classes, e, normal(classes, e)));
        },
    }
}

/// The expressions read from the output of a view, with each column of the output
/// replaced by what it stands for.
pub open spec fn put_back(view: SpjView, e: ExprView) -> ExprView
    decreases e,
{
    match e {
        ExprView::Column(c) => if c.relation is None && exists|i: int|
            0 <= i < view.output_exprs.len() && (#[trigger] view.output_schema[i]).column.name
                == c.name {
            let i = choose|i: int|
                0 <= i < view.output_exprs.len() && (#[trigger] view.output_schema[i]).column.name
                    == c.name;
            view.output_exprs[i]
        } else {
            e
        },
        ExprView::Literal(_, _) => e,
        ExprView::BinaryExpr { left, op, right } => ExprView::BinaryExpr {
            left: Box::new(put_back(view, *left)),
            op,
            right: Box::new(put_back(view, *right)),
        },
        ExprView::Not(x) => ExprView::Not(Box::new(put_back(view, *x))),
        ExprView::Alias { expr, relation, name, metadata } => ExprView::Alias {
            expr: Box::new(put_back(view, *expr)),
            relation,
            name,
            metadata,
        },
        ExprView::Other { id, children } => ExprView::Other {
            id,
            children: all_put_back(view, children),
        },
    }
}

pub open spec fn all_put_back(view: SpjView, s: Seq<ExprView>) -> Seq<ExprView>
    decreases s,
{
    Seq::new(
        s.len(),
        |i: int|
            if 0 <= i < s.len() {
                put_back(view, s[i])
            } else {
                arbitrary()
            },
    )
}

/// Reading an expression from the output of a view loses nothing of it: putting
/// back what the columns of the output stand for gives the expression, where it
/// names the table of each column and the fields of the view have different names.
pub proof fn reading_from_the_output_loses_nothing(view: SpjView, e: ExprView)
    requires
        view.aligned(),
        distinct_names(view),
        !has_bare_column(e),
    ensures
        put_back(view, over_output(view, e)) == e,
    decreases e,
{
    lemma_position(view.output_exprs, e);
    if let Some(i) = position(view.output_exprs, e) {
        let name = view.output_schema[i].column.name;
        let j = choose|j: int|
            0 <= j < view.output_exprs.len() && (#[trigger] view.output_schema[j]).column.name
                == name;
        assert(view.output_schema[j].column.name == name);
        assert(j == i);
    } else {
        match e {
            ExprView::Column(_) => {},
            ExprView::Literal(_, _) => {},
            ExprView::BinaryExpr { left, right, .. } => {
                reading_from_the_output_loses_nothing(view, *left);
                reading_from_the_output_loses_nothing(view, *right);
            },
            ExprView::Not(x) => {
                reading_from_the_output_loses_nothing(view, *x);
            },
            ExprView::Alias { expr, .. } => {
                reading_from_the_output_loses_nothing(view, *expr);
            },
            ExprView::Other { id, children } => {
                let s = all_over_output(view, children);
                assert forall|i: int| 0 <= i < children.len() implies #[trigger] all_put_back(
                    view,
                    s,
                )[i] == children[i] by {
                    assert(have_bare_columns(children)[i] == has_bare_column(children[i]));
                    reading_from_the_output_loses_nothing(view, children[i]);
                }
                assert(all_put_back(view, s) =~= children);
            },
        }
    }
}

/// The second expression is the first with each column replaced by what it stands
/// for, and nothing else changed.
pub open spec fn replaces(scope: ScopeView, e: ExprView, f: ExprView) -> bool
    decreases e,
{
    match (e, f) {
        (ExprView::Column(c), _) => flat_column(c, scope) == Some(Ok::<ExprView, ErrorView>(f)),
        (ExprView::Literal(_, _), _) => e == f,
        (
            ExprView::BinaryExpr { left, op, right },
            ExprView::BinaryExpr { left: l, op: o, right: r },
        ) => op == o && replaces(scope, *left, *l) && replaces(scope, *right, *r),
        (ExprView::Not(x), ExprView::Not(y)) => replaces(scope, *x, *y),
        (
            ExprView::Alias { expr, relation, name, metadata },
            ExprView::Alias { expr: x, relation: r, name: n, metadata: m },
        ) => relation == r && name == n && metadata == m && replaces(scope, *expr, *x),
        (ExprView::Other { id, children }, ExprView::Other { id: i, children: s }) => id == i
            && children.len() == s.len() && !each_replaces(scope, children, s).contains(false),
        _ => false,
    }
}

pub open spec fn each_replaces(scope: ScopeView, s: Seq<ExprView>, t: Seq<ExprView>) -> Seq<bool>
    decreases s,
{
    Seq::new(
        s.len(),
        |i: int|
            if 0 <= i < s.len() {
                replaces(scope, s[i], t[i])
            } else {
                arbitrary()
            },
    )
}

/// What an expression of a node stands for is the expression with each column
/// replaced, its names and operators included, and there is one such expression.
pub proof fn expressions_keep_all_but_their_columns(scope: ScopeView, e: ExprView, f: ExprView)
    ensures
        flat(e, scope) == Some(Ok::<ExprView, ErrorView>(f)) <==> replaces(scope, e, f),
    decreases e,
{
    match (e, f) {
        (ExprView::BinaryExpr { left, right, .. }, ExprView::BinaryExpr { left: l, right: r, .. }) => {
            expressions_keep_all_but_their_columns(scope, *left, *l);
            expressions_keep_all_but_their_columns(scope, *right, *r);
        },
        (ExprView::Not(x), ExprView::Not(y)) => {
            expressions_keep_all_but_their_columns(scope, *x, *y);
        },
        (ExprView::Alias { expr, .. }, ExprView::Alias { expr: x, .. }) => {
            expressions_keep_all_but_their_columns(scope, *expr, *x);
        },
        (ExprView::Other { id, children }, ExprView::Other { id: i, children: s }) => {
            let outcomes = flats(children, scope);
            let t = each_replaces(scope, children, s);
            if children.len() == s.len() {
                assert forall|k: int| 0 <= k < children.len() implies (#[trigger] outcomes[k]
                    == Some(Ok::<ExprView, ErrorView>(s[k])) <==> t[k]) by {
                    expressions_keep_all_but_their_columns(scope, children[k], s[k]);
                }
            }
            if flat(e, scope) == Some(Ok::<ExprView, ErrorView>(f)) {
                lemma_collect(outcomes);
                assert forall|k: int| 0 <= k < t.len() implies #[trigger] t[k] by {
                    assert(outcomes[k] == Some(Ok::<ExprView, ErrorView>(s[k])));
                }
            }
            if replaces(scope, e, f) {
                assert forall|k: int| 0 <= k < outcomes.len() implies #[trigger] outcomes[k]
                    == Some(Ok::<ExprView, ErrorView>(s[k])) by {
                    assert(t[k] || t.contains(t[k]));
                }
                outcomes_are_collected_in_order(outcomes, 0);
                lemma_collect(outcomes);
                let v = collect(outcomes)->0->Ok_0;
                assert forall|k: int| 0 <= k < v.len() implies v[k] == s[k] by {
                    assert(outcomes[k] == Some(Ok::<ExprView, ErrorView>(v[k])));
                }
                assert(v =~= s);
            }
        },
        _ => {},
    }
}

/// A filter of a plan is collected without its aliases, before the filters of its
/// input, which stay as they are. A projection has the filters of its input.
pub proof fn filters_are_collected_from_the_root_down(plan: PlanView)
    requires
        collected(plan) matches Some(Ok(_)),
        plan.node is Filter || plan.node is Projection,
    ensures
        plan.inputs.len() == 1 && (collected(plan.inputs[0]) matches Some(Ok(_))),
        ({
            let c = collected(plan)->0->Ok_0;
            let below = collected(plan.inputs[0])->0->Ok_0;
            &&& c.tables == below.tables && c.fields == below.fields
            &&& plan.node is Projection ==> c.filters == below.filters
            &&& plan.node is Filter ==> c.filters.len() == below.filters.len() + 1 && has_no_alias(
                c.filters[0],
            ) && forall|i: int|
                0 <= i < below.filters.len() ==> #[trigger] c.filters[i + 1] == below.filters[i]
        }),
{
    if let PlanNodeView::Filter { predicate } = plan.node {
        lemma_flattened_one(predicate, plan);
        let scope = scope_of(plan, collect(all_outputs(plan.inputs))->0->Ok_0);
        let e = flat(predicate, scope)->0->Ok_0;
        assert(partition(Seq::<Seq<ColumnView>>::empty()));
        normal_expressions_are_alike(Seq::empty(), e);
    }
}

/// The equalities that a class of a view lacks are written with the first column of
/// the class that the query has: each says that it is equal to another column, of
/// those that the query makes equal to it and the class does not have, in order.
pub proof fn equalities_are_written_with_the_first_column(
    classes: Seq<Seq<ColumnView>>,
    other: Seq<ColumnView>,
    k: int,
    i: int,
)
    requires
        partition(classes),
        0 <= k < other.len(),
        0 <= i < classes.len(),
        classes[i].contains(other[k]),
        forall|m: int, l: int|
            0 <= m < k && 0 <= l < classes.len() ==> !(#[trigger] classes[l]).contains(
                #[trigger] other[m],
            ),
    ensures
        class_filters(classes, other) matches Some(s) ==> {
            &&& forall|m: int|
                #![trigger s[m]]
                0 <= m < s.len() ==> exists|x: ColumnView| #[trigger]
                    classes[i].contains(x) && !other.contains(x) && s[m] == comparison(
                        ExprView::Column(other[k]),
                        Operator::Eq,
                        ExprView::Column(x),
                    )
            &&& forall|x: ColumnView| #[trigger]
                classes[i].contains(x) && !other.contains(x) ==> s.contains(
                    comparison(
                        ExprView::Column(other[k]),
                        Operator::Eq,
                        ExprView::Column(x),
                    ),
                )
        },
{
    lemma_first_known_at(classes, other, k);
    lemma_class_index_unique(classes, other[k], i);
    let rest = difference(classes[i], other);
    lemma_difference(classes[i], other);
    if let Some(s) = class_filters(classes, other) {
        assert forall|m: int| #![trigger s[m]] 0 <= m < s.len() implies exists|x: ColumnView| #[trigger]
            classes[i].contains(x) && !other.contains(x) && s[m] == comparison(
                ExprView::Column(other[k]),
                Operator::Eq,
                ExprView::Column(x),
            ) by {
            let x = rest[m];
            assert(rest.contains(x));
            assert(s[m] == comparison(
                ExprView::Column(other[k]),
                Operator::Eq,
                ExprView::Column(x),
            ));
        }
        assert forall|x: ColumnView| #[trigger] classes[i].contains(x) && !other.contains(x) implies s.contains(
            comparison(
                ExprView::Column(other[k]),
                Operator::Eq,
                ExprView::Column(x),
            ),
        ) by {
            assert(rest.contains(x));
            let m = choose|m: int| 0 <= m < rest.len() && rest[m] == x;
            assert(s[m] == comparison(
                ExprView::Column(other[k]),
                Operator::Eq,
                ExprView::Column(x),
            ));
        }
    }
}

proof fn lemma_first_known_at(classes: Seq<Seq<ColumnView>>, s: Seq<ColumnView>, k: int)
    requires
        0 <= k < s.len(),
        exists|i: int| 0 <= i < classes.len() && (#[trigger] classes[i]).contains(s[k]),
        forall|m: int, l: int|
            0 <= m < k && 0 <= l < classes.len() ==> !(#[trigger] classes[l]).contains(
                #[trigger] s[m],
            ),
    ensures
        first_known(classes, s) == Some(k),
    decreases s.len(),
{
    let front = s.drop_last();
    if k < front.len() {
        assert forall|m: int, l: int| 0 <= m < k && 0 <= l < classes.len() implies !(
        #[trigger] classes[l]).contains(#[trigger] front[m]) by {
            assert(front[m] == s[m]);
        }
        lemma_first_known_at(classes, front, k);
    } else {
        lemma_first_known(classes, front);
        if let Some(m) = first_known(classes, front) {
            lemma_class_index(classes, front[m]);
            assert(front[m] == s[m]);
            assert(classes[class_index(classes, s[m])->0].contains(s[m]));
        }
        lemma_class_index(classes, s[k]);
        let i = choose|i: int| 0 <= i < classes.len() && (#[trigger] classes[i]).contains(s[k]);
        assert(classes[i].contains(s[k]));
    }
}

/// A class of a query is compared with the class of the view, among those whose
/// range is not empty, that has the first of its columns. Ranges of different types
/// fail. A range that the view has already is not written, another one with the
/// first column of that class. An empty range is written as `false`.
pub proof fn ranges_are_written_with_the_first_class(
    class: Seq<ColumnView>,
    range: IntervalView,
    v: PredicateView,
    k: int,
    j: int,
)
    requires
        v.well_formed(),
        0 <= k < class.len(),
        0 <= j < v.classes.len(),
        v.classes[j].contains(class[k]),
        v.ranges[j] is Some,
        forall|m: int, l: int|
            0 <= m < k && 0 <= l < v.classes.len() && (#[trigger] v.classes[l]).contains(
                #[trigger] class[m],
            ) ==> v.ranges[l] is None,
    ensures
        v.ranges[j]->0.data_type() != range.data_type() ==> range_filter(class, Some(range), v)
            == Err::<Option<Seq<ExprView>>, ErrorView>(ErrorView::IntervalTypes),
        range_filter(class, Some(range), v) matches Ok(Some(s)) ==> {
            &&& range.contains(v.ranges[j]->0) ==> s.len() == 0
            &&& !range.contains(v.ranges[j]->0) ==> s == within(v.classes[j][0], range)
        },
        range_filter(class, None, v) == Ok::<Option<Seq<ExprView>>, ErrorView>(
            Some(
                seq![
                    ExprView::Literal(
                        (ScalarView {
                            data_type: DataTypeView::Boolean,
                            value: Some(Datum::Boolean(false)),
                        }),
                        None,
                    ),
                ],
            ),
        ),
{
    lemma_ranged_class_at(class, v, k, j);
}

proof fn lemma_ranged_class_at(s: Seq<ColumnView>, v: PredicateView, k: int, j: int)
    requires
        v.well_formed(),
        0 <= k < s.len(),
        0 <= j < v.classes.len(),
        v.classes[j].contains(s[k]),
        v.ranges[j] is Some,
        forall|m: int, l: int|
            0 <= m < k && 0 <= l < v.classes.len() && (#[trigger] v.classes[l]).contains(
                #[trigger] s[m],
            ) ==> v.ranges[l] is None,
    ensures
        ranged_class(v, s) == Some(j),
    decreases s.len(),
{
    let front = s.drop_last();
    lemma_class_index_unique(v.classes, s[k], j);
    if k < front.len() {
        assert forall|m: int, l: int|
            0 <= m < k && 0 <= l < v.classes.len() && (#[trigger] v.classes[l]).contains(
                #[trigger] front[m],
            ) implies v.ranges[l] is None by {
            assert(front[m] == s[m]);
        }
        lemma_ranged_class_at(front, v, k, j);
    } else {
        lemma_no_ranged_class(front, v);
    }
}

proof fn lemma_no_ranged_class(s: Seq<ColumnView>, v: PredicateView)
    requires
        forall|m: int, l: int|
            0 <= m < s.len() && 0 <= l < v.classes.len() && (#[trigger] v.classes[l]).contains(
                #[trigger] s[m],
            ) ==> v.ranges[l] is None,
    ensures
        ranged_class(v, s) is None,
    decreases s.len(),
{
    if s.len() > 0 {
        let front = s.drop_last();
        assert forall|m: int, l: int|
            0 <= m < front.len() && 0 <= l < v.classes.len() && (
            #[trigger] v.classes[l]).contains(#[trigger] front[m]) implies v.ranges[l] is None by {
            assert(front[m] == s[m]);
        }
        lemma_no_ranged_class(front, v);
        lemma_class_index(v.classes, s.last());
        assert(s[s.len() - 1] == s.last());
    }
}

/// The predicate keeps a filter as it is, once, and nothing else of it changes.
pub open spec fn keeps(p: PredicateView, q: PredicateView, e: ExprView) -> bool {
    &&& q.residuals == (if p.residuals.contains(e) {
        p.residuals
    } else {
        p.residuals.push(e)
    })
    &&& q.classes == p.classes && q.ranges == p.ranges
    &&& q.schema == p.schema && q.tables == p.tables
}

/// A binary expression that is neither a comparison of a column with a literal, nor
/// an equality of two columns, is kept as it is. So is a comparison with a literal
/// whose operator does not compare, whose literal cannot be cast to the type of the
/// column, or whose column is in no class; a literal on the left then changes sides.
pub proof fn comparisons_without_a_range_are_kept(
    p: PredicateView,
    left: ExprView,
    op: Operator,
    right: ExprView,
    c: ColumnView,
    v: ScalarView,
    metadata: Option<u64>,
)
    ensures
        !(left is Column && right is Literal) && !(left is Literal && right is Column) && !(left
            is Column && right is Column && op == Operator::Eq && left != right) ==> (conjoined(
            p,
            comparison(left, op, right),
        ) matches Some(Ok(q)) && keeps(p, q, comparison(left, op, right))),
        ({
            let ranging = op == Operator::Eq || op == Operator::Lt || op == Operator::LtEq || op
                == Operator::Gt || op == Operator::GtEq;
            let castable = field_of(p.schema, c) matches Ok(field) && cast(v, field.data_type)
                is Some;
            let known = exists|k: int|
                0 <= k < p.classes.len() && (#[trigger] p.classes[k]).contains(c);
            let e = comparison(ExprView::Column(c), op, ExprView::Literal(v, metadata));
            !ranging || !castable || !known ==> (conjoined(p, e) matches Some(Ok(q)) && keeps(p, q, e))
        }),
        !(op == Operator::Eq || op == Operator::NotEq || op == Operator::Lt || op == Operator::LtEq
            || op == Operator::Gt || op == Operator::GtEq || op == Operator::AtArrow || op
            == Operator::ArrowAt) ==> {
            let e = comparison(ExprView::Literal(v, metadata), op, ExprView::Column(c));
            conjoined(p, e) matches Some(Ok(q)) && keeps(p, q, e)
        },
{
    lemma_class_index(p.classes, c);
    if let Some(k) = class_index(p.classes, c) {
        assert(p.classes[k].contains(c));
    }
}

/// A negated binary expression becomes what the expression with the opposite
/// operator becomes, and is kept as it is where the operator has none.
pub proof fn negations_go_into_operators(
    p: PredicateView,
    left: ExprView,
    op: Operator,
    right: ExprView,
    opposite: Operator,
)
    ensures
        opposites(op, opposite) || opposites(opposite, op) ==> conjoined(
            p,
            ExprView::Not(Box::new(comparison(left, op, right))),
        ) == conjoined(p, comparison(left, opposite, right)),
        !(exists|o: Operator| opposites(op, o) || opposites(o, op)) ==> {
            let e = ExprView::Not(Box::new(comparison(left, op, right)));
            conjoined(p, e) matches Some(Ok(q)) && keeps(p, q, e)
        },
{
    negations_are_opposites(op, opposite);
    if let Some(o) = negated(op) {
        negations_are_opposites(op, o);
    }
}

} // verus!
