//! What holds of matching as a whole: which equalities a rewrite adds, that a
//! plan answers itself, and that equal columns stand for each other.
use vstd::prelude::*;

use crate::error::ErrorView;
use crate::expr::{all_conjuncts, lemma_position, position, ExprView, Operator};
use crate::interval::IntervalView;
use crate::names::ColumnView;
use crate::plan::{outputs, PlanView};
use crate::rewrite::class::{
    difference, lemma_difference, lemma_union, lemma_with_column, subset, union, with_column,
};
use crate::rewrite::normal_form::{
    all_over_output, conjunction, extra_filters, normal_form, over_output, projection, rewritten,
    RewriteView, SpjView,
};
use crate::rewrite::predicate::{
    all_conjoined, all_enclose, all_normal, all_range_filters, class_filters, class_index, collected,
    comparison, conjoined, equalities, equality_filters, equated, first_known, initial,
    lemma_class_index, lemma_class_index_unique, lemma_conjoined_well_formed,
    lemma_initial_well_formed, missing, normal, partition, predicate_of, range_filter,
    range_filters, ranged_class, residual_filters, unknown_say_nothing, PredicateView,
};
use crate::rewrite::plan_laws::lemma_collected_fields;
use crate::rewrite::soundness::{lemma_first_known, normal_is_idempotent};
use crate::scalar::lemma_scalar_lt_total;

verus! {

// ---------------------------------------------------------------------------
// Equalities
// ---------------------------------------------------------------------------

/// Every column of the second classes is in one of the first.
pub open spec fn covers(classes: Seq<Seq<ColumnView>>, others: Seq<Seq<ColumnView>>) -> bool {
    forall|j: int, c: ColumnView|
        0 <= j < others.len() && #[trigger] others[j].contains(c) ==> class_index(classes, c)
            is Some
}

/// The columns lie in one of the classes.
pub open spec fn lies_in(classes: Seq<Seq<ColumnView>>, other: Seq<ColumnView>) -> bool {
    exists|i: int| 0 <= i < classes.len() && subset(other, #[trigger] classes[i])
}

/// A label for each column, the same for all columns of a class.
pub open spec fn constant_on(
    label: spec_fn(ColumnView) -> int,
    classes: Seq<Seq<ColumnView>>,
) -> bool {
    forall|i: int, a: ColumnView, b: ColumnView|
        0 <= i < classes.len() && #[trigger] classes[i].contains(a)
            && #[trigger] classes[i].contains(b) ==> label(a) == label(b)
}

/// The filter that two columns are equal.
pub open spec fn equality(a: ColumnView, b: ColumnView) -> ExprView {
    comparison(ExprView::Column(a), Operator::Eq, ExprView::Column(b))
}

/// A label says of a filter `a = b` that both sides have one label.
pub open spec fn label_agrees(label: spec_fn(ColumnView) -> int, e: ExprView) -> bool {
    forall|a: ColumnView, b: ColumnView| e == #[trigger] equality(a, b) ==> label(a) == label(b)
}

/// A filter `a = b` of two columns that are in one class, and of which the other
/// classes have the first and do not have the second beside it.
pub open spec fn bridges(
    classes: Seq<Seq<ColumnView>>,
    others: Seq<Seq<ColumnView>>,
    e: ExprView,
) -> bool {
    exists|i: int, a: ColumnView, b: ColumnView|
        {
            &&& 0 <= i < classes.len()
            &&& #[trigger] classes[i].contains(a)
            &&& classes[i].contains(b)
            &&& class_index(others, a) is Some
            &&& class_index(others, a) != class_index(others, b)
            &&& e == #[trigger] equality(a, b)
        }
}

/// The equalities of one class of another predicate: there are some exactly
/// where it lies in one of the classes.
proof fn lemma_class_filters(classes: Seq<Seq<ColumnView>>, other: Seq<ColumnView>)
    requires
        partition(classes),
        other.len() > 0,
        forall|k: int| 0 <= k < other.len() ==> class_index(classes, #[trigger] other[k]) is Some,
    ensures
        class_filters(classes, other) is Some <==> lies_in(classes, other),
        first_known(classes, other) is Some,
{
    lemma_first_known(classes, other);
    assert(class_index(classes, other[0]) is Some);
    let k = first_known(classes, other)->0;
    let i = class_index(classes, other[k])->0;
    lemma_class_index(classes, other[k]);
    if lies_in(classes, other) {
        let m = choose|m: int| 0 <= m < classes.len() && subset(other, #[trigger] classes[m]);
        assert(classes[m].contains(other[k]));
        assert(m == i);
    }
    if class_filters(classes, other) is Some {
        assert(subset(other, classes[i]));
    }
}

/// The equalities of a predicate include those of another over the same table
/// exactly where each class of the other lies in a class of the first.
pub proof fn equalities_are_included(
    classes: Seq<Seq<ColumnView>>,
    others: Seq<Seq<ColumnView>>,
)
    requires
        partition(classes),
        partition(others),
        covers(classes, others),
    ensures
        equality_filters(classes, others) is None <==> exists|j: int|
            0 <= j < others.len() && !lies_in(classes, #[trigger] others[j]),
    decreases others.len(),
{
    if others.len() > 0 {
        let front = others.drop_last();
        let last = others.last();
        let n = others.len() - 1;
        lemma_front(others);
        assert(covers(classes, front)) by {
            assert forall|j: int, c: ColumnView|
                0 <= j < front.len() && #[trigger] front[j].contains(c) implies class_index(
                classes,
                c,
            ) is Some by {
                assert(others[j].contains(c));
            }
        }
        equalities_are_included(classes, front);
        assert(others[n] == last);
        assert forall|k: int| 0 <= k < last.len() implies class_index(
            classes,
            #[trigger] last[k],
        ) is Some by {
            assert(others[n].contains(last[k]));
        }
        lemma_class_filters(classes, last);
        if exists|j: int| 0 <= j < others.len() && !lies_in(classes, #[trigger] others[j]) {
            let j = choose|j: int| 0 <= j < others.len() && !lies_in(classes, #[trigger] others[j]);
            if j < n {
                assert(!lies_in(classes, front[j]));
            }
        }
        if exists|j: int| 0 <= j < front.len() && !lies_in(classes, #[trigger] front[j]) {
            let j = choose|j: int| 0 <= j < front.len() && !lies_in(classes, #[trigger] front[j]);
            assert(!lies_in(classes, others[j]));
        }
        if !lies_in(classes, last) {
            assert(!lies_in(classes, others[n]));
        }
    }
}

/// A partition without its last class is one.
proof fn lemma_front(classes: Seq<Seq<ColumnView>>)
    requires
        partition(classes),
        classes.len() > 0,
    ensures
        partition(classes.drop_last()),
{
    let front = classes.drop_last();
    assert forall|i: int| 0 <= i < front.len() implies crate::rewrite::class::sorted(
        #[trigger] front[i],
    ) && front[i].len() > 0 by {
        assert(front[i] == classes[i]);
    }
    assert forall|i: int, j: int, c: ColumnView|
        0 <= i < front.len() && 0 <= j < front.len() && #[trigger] front[i].contains(c)
            && #[trigger] front[j].contains(c) implies i == j by {
        assert(classes[i].contains(c) && classes[j].contains(c));
    }
}

/// The equalities of one class are among those of all.
proof fn lemma_among(
    classes: Seq<Seq<ColumnView>>,
    others: Seq<Seq<ColumnView>>,
    j: int,
    m: int,
)
    requires
        equality_filters(classes, others) is Some,
        0 <= j < others.len(),
    ensures
        class_filters(classes, others[j]) is Some,
        0 <= m < class_filters(classes, others[j])->0.len() ==> equality_filters(
            classes,
            others,
        )->0.contains((class_filters(classes, others[j])->0)[m]),
    decreases others.len(),
{
    let front = others.drop_last();
    let a = equality_filters(classes, front)->0;
    let b = class_filters(classes, others.last())->0;
    let s = a + b;
    assert(equality_filters(classes, others)->0 == s);
    if j < front.len() {
        assert(front[j] == others[j]);
        lemma_among(classes, front, j, m);
        if 0 <= m < class_filters(classes, others[j])->0.len() {
            let e = (class_filters(classes, others[j])->0)[m];
            let i = choose|i: int| 0 <= i < a.len() && a[i] == e;
            assert(s[i] == e);
        }
    } else {
        if 0 <= m < b.len() {
            assert(s[a.len() + m] == b[m]);
        }
    }
}

/// Each of the equalities is one of some class.
proof fn lemma_source(
    classes: Seq<Seq<ColumnView>>,
    others: Seq<Seq<ColumnView>>,
    n: int,
) -> (r: (int, int))
    requires
        equality_filters(classes, others) is Some,
        0 <= n < equality_filters(classes, others)->0.len(),
    ensures
        0 <= r.0 < others.len(),
        class_filters(classes, others[r.0]) is Some,
        0 <= r.1 < class_filters(classes, others[r.0])->0.len(),
        (equality_filters(classes, others)->0)[n] == (class_filters(classes, others[r.0])->0)[r.1],
    decreases others.len(),
{
    let front = others.drop_last();
    let a = equality_filters(classes, front)->0;
    if n < a.len() {
        let r = lemma_source(classes, front, n);
        assert(front[r.0] == others[r.0]);
        r
    } else {
        (others.len() - 1, n - a.len())
    }
}

/// What an equality of one class says: its columns, and the class.
proof fn lemma_class_equality(
    classes: Seq<Seq<ColumnView>>,
    others: Seq<Seq<ColumnView>>,
    j: int,
    m: int,
) -> (r: (int, ColumnView, ColumnView))
    requires
        partition(classes),
        partition(others),
        0 <= j < others.len(),
        class_filters(classes, others[j]) is Some,
        0 <= m < class_filters(classes, others[j])->0.len(),
    ensures
        0 <= r.0 < classes.len(),
        classes[r.0].contains(r.1),
        classes[r.0].contains(r.2),
        class_index(others, r.1) == Some(j),
        class_index(others, r.2) != Some(j),
        (class_filters(classes, others[j])->0)[m] == equality(r.1, r.2),
{
    let other = others[j];
    lemma_first_known(classes, other);
    let k = first_known(classes, other)->0;
    let a = other[k];
    let i = class_index(classes, a)->0;
    lemma_class_index(classes, a);
    let rest = difference(classes[i], other);
    lemma_difference(classes[i], other);
    let b = rest[m];
    assert(rest.contains(b));
    assert(others[j].contains(a));
    lemma_class_index_unique(others, a, j);
    lemma_class_index(others, b);
    (i, a, b)
}

/// Every filter that the equalities add is of two columns that are equal in the
/// first predicate, and are not in one class of the other.
pub proof fn added_equalities_bridge_classes(
    classes: Seq<Seq<ColumnView>>,
    others: Seq<Seq<ColumnView>>,
)
    requires
        partition(classes),
        partition(others),
        equality_filters(classes, others) is Some,
    ensures
        forall|n: int|
            0 <= n < equality_filters(classes, others)->0.len() ==> bridges(
                classes,
                others,
                #[trigger] (equality_filters(classes, others)->0)[n],
            ),
{
    let s = equality_filters(classes, others)->0;
    assert forall|n: int| 0 <= n < s.len() implies bridges(
        classes,
        others,
        #[trigger] s[n],
    ) by {
        let (j, m) = lemma_source(classes, others, n);
        let (i, a, b) = lemma_class_equality(classes, others, j, m);
        assert(classes[i].contains(a) && s[n] == equality(a, b));
    }
}

/// The equalities of the other predicate, together with those that are added,
/// say exactly what the equalities of the first say.
pub proof fn added_equalities_complete_classes(
    classes: Seq<Seq<ColumnView>>,
    others: Seq<Seq<ColumnView>>,
    label: spec_fn(ColumnView) -> int,
)
    requires
        partition(classes),
        partition(others),
        covers(classes, others),
        covers(others, classes),
        equality_filters(classes, others) is Some,
    ensures
        constant_on(label, classes) <==> constant_on(label, others) && forall|n: int|
            0 <= n < equality_filters(classes, others)->0.len() ==> label_agrees(
                label,
                #[trigger] (equality_filters(classes, others)->0)[n],
            ),
{
    let s = equality_filters(classes, others)->0;
    if constant_on(label, classes) {
        assert forall|j: int, a: ColumnView, b: ColumnView|
            0 <= j < others.len() && #[trigger] others[j].contains(a)
                && #[trigger] others[j].contains(b) implies label(a) == label(b) by {
            lemma_among(classes, others, j, -1);
            let i = lemma_class_of(classes, others, j);
            lemma_in_subset(others[j], classes[i], a);
            lemma_in_subset(others[j], classes[i], b);
        }
        assert forall|n: int| 0 <= n < s.len() implies label_agrees(label, #[trigger] s[n]) by {
            let (j, m) = lemma_source(classes, others, n);
            let (i, a, b) = lemma_class_equality(classes, others, j, m);
            assert(classes[i].contains(a) && classes[i].contains(b));
            assert forall|x: ColumnView, y: ColumnView| s[n] == #[trigger] equality(x, y) implies label(
                x,
            ) == label(y) by {
                lemma_equality_sides(a, b, x, y);
            }
        }
    }
    if constant_on(label, others) && forall|n: int|
        0 <= n < s.len() ==> label_agrees(label, #[trigger] s[n]) {
        assert forall|i: int, a: ColumnView, b: ColumnView|
            0 <= i < classes.len() && #[trigger] classes[i].contains(a)
                && #[trigger] classes[i].contains(b) implies label(a) == label(b) by {
            assert(class_index(others, a) is Some);
            let j = class_index(others, a)->0;
            lemma_class_index(others, a);
            lemma_labels_meet(classes, others, label, i, j, a, a);
            lemma_labels_meet(classes, others, label, i, j, a, b);
        }
    }
}

/// A class that lies in one of the classes: which one.
proof fn lemma_class_of(
    classes: Seq<Seq<ColumnView>>,
    others: Seq<Seq<ColumnView>>,
    j: int,
) -> (i: int)
    requires
        partition(classes),
        partition(others),
        covers(classes, others),
        0 <= j < others.len(),
        class_filters(classes, others[j]) is Some,
    ensures
        0 <= i < classes.len(),
        subset(others[j], classes[i]),
        first_known(classes, others[j]) matches Some(k) && 0 <= k < others[j].len() && class_index(
            classes,
            others[j][k],
        ) == Some(i),
{
    let other = others[j];
    assert forall|k: int| 0 <= k < other.len() implies class_index(
        classes,
        #[trigger] other[k],
    ) is Some by {
        assert(others[j].contains(other[k]));
    }
    lemma_class_filters(classes, other);
    lemma_first_known(classes, other);
    let k = first_known(classes, other)->0;
    lemma_class_index(classes, other[k]);
    class_index(classes, other[k])->0
}

proof fn lemma_in_subset(a: Seq<ColumnView>, b: Seq<ColumnView>, c: ColumnView)
    requires
        subset(a, b),
        a.contains(c),
    ensures
        b.contains(c),
{
    let i = choose|i: int| 0 <= i < a.len() && a[i] == c;
    assert(b.contains(a[i]));
}

proof fn lemma_equality_sides(a: ColumnView, b: ColumnView, x: ColumnView, y: ColumnView)
    requires
        equality(a, b) == equality(x, y),
    ensures
        a == x,
        b == y,
{
}

/// A column of a class has the label of the column that stands for the part of
/// the class that another class is.
proof fn lemma_labels_meet(
    classes: Seq<Seq<ColumnView>>,
    others: Seq<Seq<ColumnView>>,
    label: spec_fn(ColumnView) -> int,
    i: int,
    j: int,
    a: ColumnView,
    b: ColumnView,
)
    requires
        partition(classes),
        partition(others),
        covers(classes, others),
        equality_filters(classes, others) is Some,
        constant_on(label, others),
        forall|n: int|
            0 <= n < equality_filters(classes, others)->0.len() ==> label_agrees(
                label,
                #[trigger] (equality_filters(classes, others)->0)[n],
            ),
        0 <= i < classes.len(),
        0 <= j < others.len(),
        others[j].contains(a),
        classes[i].contains(a),
        classes[i].contains(b),
    ensures
        first_known(classes, others[j]) is Some,
        label(b) == label(others[j][first_known(classes, others[j])->0]),
{
    let other = others[j];
    let s = equality_filters(classes, others)->0;
    lemma_among(classes, others, j, -1);
    let at = lemma_class_of(classes, others, j);
    lemma_in_subset(other, classes[at], a);
    assert(at == i);
    let rep = other[first_known(classes, other)->0];
    assert(others[j].contains(rep));
    if other.contains(b) {
        assert(others[j].contains(b));
    } else {
        let rest = difference(classes[i], other);
        lemma_difference(classes[i], other);
        assert(rest.contains(b));
        let m = choose|m: int| 0 <= m < rest.len() && rest[m] == b;
        assert((class_filters(classes, other)->0)[m] == equality(rep, b));
        lemma_among(classes, others, j, m);
        let n = choose|n: int| 0 <= n < s.len() && s[n] == equality(rep, b);
        assert(label_agrees(label, s[n]));
    }
}

/// The equalities of a predicate add nothing to its own.
pub proof fn own_equalities_add_nothing(classes: Seq<Seq<ColumnView>>)
    requires
        partition(classes),
    ensures
        equality_filters(classes, classes) == Some(Seq::<ExprView>::empty()),
{
    lemma_own_equalities(classes, classes.len());
    assert(classes.take(classes.len() as int) =~= classes);
}

proof fn lemma_own_equalities(classes: Seq<Seq<ColumnView>>, n: nat)
    requires
        partition(classes),
        n <= classes.len(),
    ensures
        equality_filters(classes, classes.take(n as int)) == Some(Seq::<ExprView>::empty()),
    decreases n,
{
    let s = classes.take(n as int);
    if n > 0 {
        lemma_own_equalities(classes, (n - 1) as nat);
        assert(s.drop_last() =~= classes.take(n - 1));
        let class = classes[n - 1];
        assert(s.last() == class);
        assert forall|k: int| 0 <= k < class.len() implies class_index(
            classes,
            #[trigger] class[k],
        ) == Some(n - 1) by {
            assert(classes[n - 1].contains(class[k]));
            lemma_class_index_unique(classes, class[k], n - 1);
        }
        lemma_first_known(classes, class);
        assert(class_index(classes, class[0]) is Some);
        let rest = difference(class, class);
        lemma_difference(class, class);
        if rest.len() > 0 {
            assert(rest.contains(rest[0]));
        }
        assert(subset(class, class)) by {
            assert forall|k: int| 0 <= k < class.len() implies class.contains(
                #[trigger] class[k],
            ) by {}
        }
        assert(equalities(class[first_known(classes, class)->0], rest) =~= Seq::empty());
        assert(Seq::<ExprView>::empty() + Seq::<ExprView>::empty() =~= Seq::empty());
    } else {
        assert(s.len() == 0);
    }
}

// ---------------------------------------------------------------------------
// A plan and itself
// ---------------------------------------------------------------------------

/// A list has the class of its first column.
proof fn lemma_ranged_first(v: PredicateView, s: Seq<ColumnView>, j: int)
    requires
        s.len() > 0,
        class_index(v.classes, s[0]) == Some(j),
        v.ranges[j] is Some,
    ensures
        ranged_class(v, s) == Some(j),
    decreases s.len(),
{
    let front = s.drop_last();
    if front.len() > 0 {
        assert(front[0] == s[0]);
        lemma_ranged_first(v, front, j);
    } else {
        assert(ranged_class(v, front) is None);
        assert(s.last() == s[0]);
    }
}

/// A range contains itself.
proof fn lemma_contains_itself(r: IntervalView)
    requires
        r.valid(),
    ensures
        r.contains(r),
{
    if r.data_type().known() && !r.lower.is_null() && !r.upper.is_null() {
        lemma_scalar_lt_total(r.lower, r.upper);
        lemma_scalar_lt_total(r.upper, r.lower);
    }
}

/// The ranges of a predicate add nothing to its own, where none is empty.
pub proof fn own_ranges_add_nothing(p: PredicateView)
    requires
        p.well_formed(),
        forall|i: int| 0 <= i < p.ranges.len() ==> (#[trigger] p.ranges[i]) is Some,
    ensures
        all_range_filters(p, p) == Ok::<Option<Seq<ExprView>>, ErrorView>(Some(Seq::empty())),
{
    lemma_own_ranges(p, p.classes.len());
    assert forall|j: int| 0 <= j < p.classes.len() implies first_known(
        p.classes,
        #[trigger] p.classes[j],
    ) is Some by {
        let class = p.classes[j];
        assert(p.classes[j].contains(class[0]));
        lemma_class_index_unique(p.classes, class[0], j);
        lemma_first_known(p.classes, class);
        assert(class_index(p.classes, class[0]) is Some);
    }
    assert(unknown_say_nothing(p, p));
}

proof fn lemma_own_ranges(p: PredicateView, n: nat)
    requires
        p.well_formed(),
        forall|i: int| 0 <= i < p.ranges.len() ==> (#[trigger] p.ranges[i]) is Some,
        n <= p.classes.len(),
    ensures
        range_filters(p, p, n) == Ok::<Option<Seq<ExprView>>, ErrorView>(Some(Seq::empty())),
    decreases n,
{
    if n > 0 {
        lemma_own_ranges(p, (n - 1) as nat);
        let i = n - 1;
        let class = p.classes[i];
        let range = p.ranges[i]->0;
        assert(p.ranges[i] is Some);
        assert forall|k: int| 0 <= k < class.len() implies class_index(
            p.classes,
            #[trigger] class[k],
        ) == Some(i) by {
            assert(p.classes[i].contains(class[k]));
            lemma_class_index_unique(p.classes, class[k], i);
        }
        assert(class_index(p.classes, class[0]) == Some(i));
        lemma_ranged_first(p, class, i);
        lemma_contains_itself(range);
        assert(all_enclose(p, class, range));
        assert(range_filter(class, p.ranges[i], p) == Ok::<Option<Seq<ExprView>>, ErrorView>(
            Some(Seq::empty()),
        ));
        assert(Seq::<ExprView>::empty() + Seq::<ExprView>::empty() =~= Seq::empty());
    }
}

/// A list lacks none of its expressions.
proof fn lemma_missing_none(a: Seq<ExprView>, b: Seq<ExprView>)
    requires
        forall|i: int| 0 <= i < a.len() ==> b.contains(#[trigger] a[i]),
    ensures
        missing(a, b) =~= Seq::<ExprView>::empty(),
    decreases a.len(),
{
    if a.len() > 0 {
        let front = a.drop_last();
        assert forall|i: int| 0 <= i < front.len() implies b.contains(#[trigger] front[i]) by {
            assert(front[i] == a[i]);
        }
        lemma_missing_none(front, b);
        assert(b.contains(a[a.len() - 1]));
    }
}

/// The residual filters of a predicate add nothing to its own.
pub proof fn own_residuals_add_nothing(p: PredicateView)
    ensures
        residual_filters(p, p) == Some(Seq::<ExprView>::empty()),
{
    let s = all_normal(p.classes, p.residuals);
    assert(forall|i: int| 0 <= i < s.len() ==> s.contains(#[trigger] s[i]));
    lemma_missing_none(s, s);
}

/// No place before the first one has the expression.
proof fn lemma_first_position(s: Seq<ExprView>, e: ExprView)
    ensures
        position(s, e) matches Some(k) ==> forall|m: int| 0 <= m < k ==> #[trigger] s[m] != e,
        position(s, e) is None ==> forall|m: int| 0 <= m < s.len() ==> #[trigger] s[m] != e,
    decreases s.len(),
{
    if s.len() > 0 {
        let front = s.drop_last();
        lemma_first_position(front, e);
        assert(forall|m: int| 0 <= m < front.len() ==> #[trigger] s[m] == front[m]);
        lemma_position(front, e);
    }
}

/// What a plan outputs at one place, read from its own output: the first column
/// that has that expression, under the name of the field at that place.
pub open spec fn own_output(form: SpjView, i: int) -> ExprView {
    let k = position(form.output_exprs, form.output_exprs[i])->0;
    ExprView::Alias {
        expr: Box::new(
            ExprView::Column(
                ColumnView { relation: None, name: form.output_schema[k].column.name },
            ),
        ),
        relation: form.output_schema[i].column.relation,
        name: form.output_schema[i].column.name,
        metadata: None,
    }
}

/// The outputs of a normal form are normal.
pub open spec fn outputs_normal(form: SpjView) -> bool {
    forall|i: int|
        0 <= i < form.output_exprs.len() ==> normal(
            form.predicate.classes,
            #[trigger] form.output_exprs[i],
        ) == form.output_exprs[i]
}

proof fn lemma_own_projection(form: SpjView, n: nat)
    requires
        outputs_normal(form),
        n <= form.output_exprs.len(),
    ensures
        projection(form, form, n) == Some(Seq::new(n, |i: int| own_output(form, i))),
    decreases n,
{
    let all = Seq::new(n, |i: int| own_output(form, i));
    if n > 0 {
        lemma_own_projection(form, (n - 1) as nat);
        let front = Seq::new((n - 1) as nat, |i: int| own_output(form, i));
        let e = form.output_exprs[n - 1];
        assert(normal(form.predicate.classes, e) == e);
        lemma_position(form.output_exprs, e);
        assert(form.output_exprs.contains(e));
        let o = over_output(form, e);
        assert(o is Column && o->Column_0.relation is None);
        assert(!o.has_qualified_column());
        assert(front.push(own_output(form, n - 1)) =~= all);
    } else {
        assert(all =~= Seq::empty());
    }
}

/// A normal form whose ranges are not empty answers itself: the rewrite is a
/// projection without a filter, and each of its outputs reads the first column
/// that has the expression.
pub proof fn form_answers_itself(form: SpjView)
    requires
        form.predicate.well_formed(),
        outputs_normal(form),
        forall|i: int|
            0 <= i < form.predicate.ranges.len() ==> (#[trigger] form.predicate.ranges[i]) is Some,
    ensures
        rewritten(form, form) == Ok::<Option<RewriteView>, ErrorView>(
            Some(
                RewriteView {
                    filter: None,
                    projection: Seq::new(form.output_exprs.len(), |i: int| own_output(form, i)),
                },
            ),
        ),
        forall|i: int|
            #![trigger form.output_exprs[i]]
            0 <= i < form.output_exprs.len() ==> ({
                let k = position(form.output_exprs, form.output_exprs[i])->0;
                &&& 0 <= k <= i
                &&& form.output_exprs[k] == form.output_exprs[i]
                &&& forall|m: int|
                    0 <= m < k ==> #[trigger] form.output_exprs[m] != form.output_exprs[i]
            }),
{
    let p = form.predicate;
    let none = Seq::<ExprView>::empty();
    own_equalities_add_nothing(p.classes);
    own_ranges_add_nothing(p);
    own_residuals_add_nothing(p);
    assert(none + none + none =~= none);
    assert(extra_filters(p, p) == Ok::<Option<Seq<ExprView>>, ErrorView>(Some(none)));
    assert(all_over_output(form, none) =~= none);
    assert(conjunction(none) is None);
    lemma_own_projection(form, form.output_exprs.len());
    assert forall|i: int|
        #![trigger form.output_exprs[i]]
        0 <= i < form.output_exprs.len() implies ({
        let k = position(form.output_exprs, form.output_exprs[i])->0;
        &&& 0 <= k <= i
        &&& form.output_exprs[k] == form.output_exprs[i]
        &&& forall|m: int|
            0 <= m < k ==> #[trigger] form.output_exprs[m] != form.output_exprs[i]
    }) by {
        let e = form.output_exprs[i];
        lemma_position(form.output_exprs, e);
        lemma_first_position(form.output_exprs, e);
    }
}

/// A list of filters keeps the invariant.
pub proof fn lemma_all_conjoined_well_formed(p: PredicateView, s: Seq<ExprView>)
    requires
        p.well_formed(),
    ensures
        all_conjoined(p, s) matches Some(Ok(q)) ==> q.well_formed(),
    decreases s.len(),
{
    if s.len() > 0 {
        lemma_all_conjoined_well_formed(p, s.drop_last());
        if let Some(Ok(q)) = all_conjoined(p, s.drop_last()) {
            lemma_conjoined_well_formed(q, s.last());
        }
    }
}

/// The normal form of a plan has a predicate that meets its invariant, an output
/// for each field, and outputs that are normal.
pub proof fn normal_forms_are_normal(plan: PlanView)
    ensures
        normal_form(plan) matches Some(Ok(form)) ==> {
            &&& form.predicate.well_formed()
            &&& form.aligned()
            &&& outputs_normal(form)
            &&& form.output_schema == plan.schema
        },
{
    if let Some(Ok(form)) = normal_form(plan) {
        let c = collected(plan)->0->Ok_0;
        lemma_collected_fields(plan);
        lemma_initial_well_formed(c.tables, c.fields);
        lemma_all_conjoined_well_formed(initial(c.tables, c.fields), all_conjuncts(c.filters));
        let exprs = outputs(plan)->0->Ok_0;
        assert forall|i: int| 0 <= i < form.output_exprs.len() implies normal(
            form.predicate.classes,
            #[trigger] form.output_exprs[i],
        ) == form.output_exprs[i] by {
            normal_is_idempotent(form.predicate.classes, exprs[i]);
        }
    }
}

/// A plan answers itself: the rewrite of a query over the query is a projection
/// without a filter. A query without rows, whose filters leave a column no value,
/// is left out: it keeps a filter that no row passes.
pub proof fn plan_answers_itself(plan: PlanView, form: SpjView)
    requires
        normal_form(plan) == Some(Ok::<SpjView, ErrorView>(form)),
        forall|i: int|
            0 <= i < form.predicate.ranges.len() ==> (#[trigger] form.predicate.ranges[i]) is Some,
    ensures
        rewritten(form, form) == Ok::<Option<RewriteView>, ErrorView>(
            Some(
                RewriteView {
                    filter: None,
                    projection: Seq::new(plan.schema.len(), |i: int| own_output(form, i)),
                },
            ),
        ),
{
    normal_forms_are_normal(plan);
    form_answers_itself(form);
}

// ---------------------------------------------------------------------------
// Equal columns
// ---------------------------------------------------------------------------

/// The two columns that a filter makes equal, where it does that.
pub open spec fn equates(e: ExprView) -> Option<(ColumnView, ColumnView)> {
    let (inner, operator) = match e {
        ExprView::Not(x) => (*x, Operator::NotEq),
        _ => (e, Operator::Eq),
    };
    match inner {
        ExprView::BinaryExpr { left, op, right } => match (*left, *right) {
            (ExprView::Column(a), ExprView::Column(b)) => if op == operator && a != b {
                Some((a, b))
            } else {
                None
            },
            _ => None,
        },
        _ => None,
    }
}

/// A filter makes two columns equal.
pub open spec fn says_equal(e: ExprView, a: ColumnView, b: ColumnView) -> bool {
    equates(e) == Some((a, b)) || equates(e) == Some((b, a))
}

/// One of the filters makes two columns equal.
pub open spec fn linked(filters: Seq<ExprView>, a: ColumnView, b: ColumnView) -> bool {
    exists|k: int| 0 <= k < filters.len() && says_equal(#[trigger] filters[k], a, b)
}

/// The filters make each column of a list equal to the next one.
pub open spec fn chained(filters: Seq<ExprView>, chain: Seq<ColumnView>) -> bool {
    &&& chain.len() > 0
    &&& forall|i: int|
        0 <= i < chain.len() - 1 ==> linked(filters, #[trigger] chain[i], chain[i + 1])
}

/// One of the classes has both columns.
pub open spec fn together(classes: Seq<Seq<ColumnView>>, a: ColumnView, b: ColumnView) -> bool {
    exists|i: int|
        0 <= i < classes.len() && #[trigger] classes[i].contains(a) && classes[i].contains(b)
}

proof fn lemma_together(classes: Seq<Seq<ColumnView>>, i: int, a: ColumnView, b: ColumnView)
    requires
        0 <= i < classes.len(),
        classes[i].contains(a),
        classes[i].contains(b),
    ensures
        together(classes, a, b),
{
}

/// Two classes that become one keep what either has together.
proof fn lemma_merged_together(
    classes: Seq<Seq<ColumnView>>,
    i: int,
    j: int,
    a: ColumnView,
    b: ColumnView,
)
    requires
        partition(classes),
        0 <= i < j < classes.len(),
        together(classes, a, b) || ((classes[i].contains(a) || classes[j].contains(a)) && (
        classes[i].contains(b) || classes[j].contains(b))),
    ensures
        together(classes.update(i, union(classes[i], classes[j])).remove(j), a, b),
{
    let both = union(classes[i], classes[j]);
    let r = classes.update(i, both).remove(j);
    lemma_union(classes[i], classes[j]);
    assert(r[i] == both);
    if both.contains(a) && both.contains(b) {
        lemma_together(r, i, a, b);
    } else {
        let k = choose|k: int|
            0 <= k < classes.len() && #[trigger] classes[k].contains(a) && classes[k].contains(b);
        assert(k != i && k != j);
        let n = if k < j {
            k
        } else {
            k - 1
        };
        assert(r[n] == classes[k]);
        lemma_together(r, n, a, b);
    }
}

/// Making two columns equal puts them together, and leaves together what is.
proof fn lemma_equated_together(
    p: PredicateView,
    c1: ColumnView,
    c2: ColumnView,
    a: ColumnView,
    b: ColumnView,
)
    requires
        p.well_formed(),
        equated(p, c1, c2) matches Some(Ok(_)),
        together(p.classes, a, b) || (a == c1 && b == c2),
    ensures
        together(equated(p, c1, c2)->0->Ok_0.classes, a, b),
{
    let q = equated(p, c1, c2)->0->Ok_0;
    lemma_class_index(p.classes, c1);
    lemma_class_index(p.classes, c2);
    match (class_index(p.classes, c1), class_index(p.classes, c2)) {
        (None, None) => {
            let n = p.classes.len() as int;
            lemma_with_column(seq![c1], c2);
            assert(seq![c1].contains(seq![c1][0]));
            if a == c1 && b == c2 {
                assert(q.classes[n].contains(a) && q.classes[n].contains(b));
                lemma_together(q.classes, n, a, b);
            } else {
                let k = choose|k: int|
                    0 <= k < p.classes.len() && #[trigger] p.classes[k].contains(a)
                        && p.classes[k].contains(b);
                assert(q.classes[k] == p.classes[k]);
                lemma_together(q.classes, k, a, b);
            }
        },
        (None, Some(i)) => {
            lemma_widened_together(p.classes, i, c1, a, b);
        },
        (Some(i), None) => {
            lemma_widened_together(p.classes, i, c2, a, b);
        },
        (Some(i), Some(j)) => {
            if i == j {
                if a == c1 && b == c2 {
                    lemma_together(p.classes, i, a, b);
                }
            } else if i < j {
                lemma_merged_together(p.classes, i, j, a, b);
            } else {
                lemma_merged_together(p.classes, j, i, a, b);
            }
        },
    }
}

/// A class with one more column keeps what is together.
proof fn lemma_widened_together(
    classes: Seq<Seq<ColumnView>>,
    i: int,
    c: ColumnView,
    a: ColumnView,
    b: ColumnView,
)
    requires
        partition(classes),
        0 <= i < classes.len(),
        together(classes, a, b) || ((classes[i].contains(a) || a == c) && (classes[i].contains(b)
            || b == c)),
    ensures
        together(classes.update(i, with_column(classes[i], c)), a, b),
{
    let r = classes.update(i, with_column(classes[i], c));
    lemma_with_column(classes[i], c);
    if together(classes, a, b) {
        let k = choose|k: int|
            0 <= k < classes.len() && #[trigger] classes[k].contains(a) && classes[k].contains(b);
        assert(r[k].contains(a) && r[k].contains(b));
        lemma_together(r, k, a, b);
    } else {
        assert(r[i].contains(a) && r[i].contains(b));
        lemma_together(r, i, a, b);
    }
}

/// A filter leaves together what is, and an equality puts its columns together.
pub proof fn lemma_conjoined_together(p: PredicateView, e: ExprView, a: ColumnView, b: ColumnView)
    requires
        p.well_formed(),
        conjoined(p, e) matches Some(Ok(_)),
        together(p.classes, a, b) || says_equal(e, a, b),
    ensures
        together(conjoined(p, e)->0->Ok_0.classes, a, b),
{
    if let Some((c1, c2)) = equates(e) {
        assert(conjoined(p, e) == equated(p, c1, c2));
        if together(p.classes, a, b) || (a == c1 && b == c2) {
            lemma_equated_together(p, c1, c2, a, b);
        } else {
            lemma_equated_together(p, c1, c2, b, a);
        }
    }
}

/// Once a filter makes two columns equal, they are in one class, whatever filters
/// come before and after it.
pub proof fn equal_columns_are_together(
    p: PredicateView,
    filters: Seq<ExprView>,
    a: ColumnView,
    b: ColumnView,
)
    requires
        p.well_formed(),
        all_conjoined(p, filters) matches Some(Ok(_)),
        linked(filters, a, b),
    ensures
        together(all_conjoined(p, filters)->0->Ok_0.classes, a, b),
    decreases filters.len(),
{
    let front = filters.drop_last();
    let mid = all_conjoined(p, front)->0->Ok_0;
    lemma_all_conjoined_well_formed(p, front);
    let k = choose|k: int| 0 <= k < filters.len() && says_equal(#[trigger] filters[k], a, b);
    if k < front.len() {
        assert(says_equal(front[k], a, b));
        equal_columns_are_together(p, front, a, b);
    }
    lemma_conjoined_together(mid, filters.last(), a, b);
}

/// What is together with a column that is together with another is together with
/// that one.
proof fn lemma_together_transitive(
    classes: Seq<Seq<ColumnView>>,
    a: ColumnView,
    b: ColumnView,
    c: ColumnView,
)
    requires
        partition(classes),
        together(classes, a, b),
        together(classes, b, c),
    ensures
        together(classes, a, c),
{
    let i = choose|i: int|
        0 <= i < classes.len() && #[trigger] classes[i].contains(a) && classes[i].contains(b);
    let j = choose|j: int|
        0 <= j < classes.len() && #[trigger] classes[j].contains(b) && classes[j].contains(c);
    assert(i == j);
    lemma_together(classes, i, a, c);
}

/// The first and the last of some columns, each of which the filters make equal
/// to the next one, are in one class.
pub proof fn chained_columns_are_together(
    p: PredicateView,
    filters: Seq<ExprView>,
    chain: Seq<ColumnView>,
)
    requires
        p.well_formed(),
        all_conjoined(p, filters) matches Some(Ok(_)),
        chained(filters, chain),
        chain.len() > 1,
    ensures
        together(all_conjoined(p, filters)->0->Ok_0.classes, chain.first(), chain.last()),
    decreases chain.len(),
{
    let classes = all_conjoined(p, filters)->0->Ok_0.classes;
    let front = chain.drop_last();
    let n = chain.len() - 2;
    assert(linked(filters, chain[n], chain[n + 1]));
    equal_columns_are_together(p, filters, chain[n], chain[n + 1]);
    if n > 0 {
        assert forall|i: int| 0 <= i < front.len() - 1 implies linked(
            filters,
            #[trigger] front[i],
            front[i + 1],
        ) by {
            assert(front[i] == chain[i] && front[i + 1] == chain[i + 1]);
        }
        chained_columns_are_together(p, filters, front);
        lemma_all_conjoined_well_formed(p, filters);
        lemma_together_transitive(classes, chain.first(), chain[n], chain.last());
    }
}

/// Columns of one class have one normal form.
proof fn lemma_together_normal(classes: Seq<Seq<ColumnView>>, a: ColumnView, b: ColumnView)
    requires
        partition(classes),
        together(classes, a, b),
    ensures
        normal(classes, ExprView::Column(a)) == normal(classes, ExprView::Column(b)),
{
    let i = choose|i: int|
        0 <= i < classes.len() && #[trigger] classes[i].contains(a) && classes[i].contains(b);
    lemma_class_index_unique(classes, a, i);
    lemma_class_index_unique(classes, b, i);
}

/// Two plans with the same filters that output columns which the filters make
/// equal, directly or over other columns, have one normal form, but for the fields
/// of their outputs. The outputs are given by the columns that lead from those of
/// the first plan to those of the second.
pub proof fn equal_columns_have_one_form(
    first: PlanView,
    second: PlanView,
    chains: Seq<Seq<ColumnView>>,
)
    requires
        collected(first) == collected(second),
        normal_form(first) matches Some(Ok(_)),
        normal_form(second) matches Some(Ok(_)),
        forall|i: int|
            0 <= i < chains.len() ==> chained(
                all_conjuncts(collected(first)->0->Ok_0.filters),
                #[trigger] chains[i],
            ),
        outputs(first)->0->Ok_0 == Seq::new(
            chains.len(),
            |i: int| ExprView::Column(chains[i].first()),
        ),
        outputs(second)->0->Ok_0 == Seq::new(
            chains.len(),
            |i: int| ExprView::Column(chains[i].last()),
        ),
    ensures
        normal_form(second)->0->Ok_0 == (SpjView {
            output_schema: second.schema,
            ..normal_form(first)->0->Ok_0
        }),
        normal_form(first)->0->Ok_0.output_exprs.len() == chains.len(),
{
    let c = collected(first)->0->Ok_0;
    let start = initial(c.tables, c.fields);
    let filters = all_conjuncts(c.filters);
    lemma_collected_fields(first);
    lemma_initial_well_formed(c.tables, c.fields);
    lemma_all_conjoined_well_formed(start, filters);
    let p = predicate_of(first)->0->Ok_0;
    assert(predicate_of(second) == predicate_of(first));
    let a = outputs(first)->0->Ok_0;
    let b = outputs(second)->0->Ok_0;
    assert forall|i: int| 0 <= i < chains.len() implies normal(p.classes, #[trigger] a[i])
        == normal(p.classes, b[i]) by {
        assert(chained(filters, chains[i]));
        if chains[i].len() > 1 {
            chained_columns_are_together(start, filters, chains[i]);
            lemma_together_normal(p.classes, chains[i].first(), chains[i].last());
        }
    }
    assert(all_normal(p.classes, a) =~= all_normal(p.classes, b));
}

} // verus!
