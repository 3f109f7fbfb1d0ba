//! Sets of columns that are equal to each other, kept in order.
use vstd::prelude::*;

use crate::names::{
    columns_view, lemma_column_lt_irreflexive, lemma_column_lt_total, lemma_column_lt_transitive,
    Column, ColumnView,
};
use crate::text::Order;

verus! {

/// Each column is less than those behind it.
pub open spec fn sorted(s: Seq<ColumnView>) -> bool {
    forall|i: int, j: int| 0 <= i < j < s.len() ==> (#[trigger] s[i]).lt(#[trigger] s[j])
}

/// How many columns at the front of the list are less than a column.
pub open spec fn below(s: Seq<ColumnView>, c: ColumnView) -> nat
    decreases s.len(),
{
    if s.len() == 0 || !s[0].lt(c) {
        0
    } else {
        1 + below(s.drop_first(), c)
    }
}

/// The set with one more column.
pub open spec fn with_column(s: Seq<ColumnView>, c: ColumnView) -> Seq<ColumnView> {
    if s.contains(c) {
        s
    } else {
        s.insert(below(s, c) as int, c)
    }
}

/// The columns of both sets.
pub open spec fn union(a: Seq<ColumnView>, b: Seq<ColumnView>) -> Seq<ColumnView>
    decreases b.len(),
{
    if b.len() == 0 {
        a
    } else {
        with_column(union(a, b.drop_last()), b.last())
    }
}

/// The columns of the first set that the second does not have.
pub open spec fn difference(a: Seq<ColumnView>, b: Seq<ColumnView>) -> Seq<ColumnView>
    decreases a.len(),
{
    if a.len() == 0 {
        Seq::empty()
    } else if b.contains(a.last()) {
        difference(a.drop_last(), b)
    } else {
        difference(a.drop_last(), b).push(a.last())
    }
}

/// Every column of the first set is in the second.
pub open spec fn subset(a: Seq<ColumnView>, b: Seq<ColumnView>) -> bool {
    forall|i: int| 0 <= i < a.len() ==> b.contains(#[trigger] a[i])
}

pub proof fn lemma_below(s: Seq<ColumnView>, c: ColumnView)
    ensures
        below(s, c) <= s.len(),
        forall|i: int| 0 <= i < below(s, c) ==> (#[trigger] s[i]).lt(c),
        below(s, c) < s.len() ==> !s[below(s, c) as int].lt(c),
    decreases s.len(),
{
    if s.len() > 0 && s[0].lt(c) {
        let rest = s.drop_first();
        lemma_below(rest, c);
        assert forall|i: int| 0 <= i < below(s, c) implies (#[trigger] s[i]).lt(c) by {
            if i > 0 {
                assert(rest[i - 1] == s[i]);
            }
        }
    }
}

/// The place of a column in a sorted list is the one where it is found.
proof fn lemma_below_unique(s: Seq<ColumnView>, c: ColumnView, n: int)
    requires
        0 <= n <= s.len(),
        forall|i: int| 0 <= i < n ==> (#[trigger] s[i]).lt(c),
        n < s.len() ==> !s[n].lt(c),
    ensures
        below(s, c) == n,
{
    lemma_below(s, c);
    if below(s, c) < n {
        assert(s[below(s, c) as int].lt(c));
    } else if below(s, c) > n {
        assert(s[n].lt(c));
    }
}

/// A sorted list has a column exactly where the column stands at its place.
proof fn lemma_sorted_contains(s: Seq<ColumnView>, c: ColumnView)
    requires
        sorted(s),
    ensures
        s.contains(c) <==> below(s, c) < s.len() && s[below(s, c) as int] == c,
{
    lemma_below(s, c);
    let n = below(s, c) as int;
    if s.contains(c) {
        let i = choose|i: int| 0 <= i < s.len() && s[i] == c;
        lemma_column_lt_irreflexive(c);
        assert(i >= n);
        if i > n {
            assert(s[n].lt(s[i]));
        }
    }
}

/// One more column keeps a set in order, and adds that column alone.
pub proof fn lemma_with_column(s: Seq<ColumnView>, c: ColumnView)
    requires
        sorted(s),
    ensures
        sorted(with_column(s, c)),
        forall|x: ColumnView| #[trigger]
            with_column(s, c).contains(x) <==> s.contains(x) || x == c,
{
    let n = below(s, c) as int;
    let r = with_column(s, c);
    lemma_below(s, c);
    if !s.contains(c) {
        assert forall|i: int, j: int| 0 <= i < j < r.len() implies (#[trigger] r[i]).lt(
            #[trigger] r[j],
        ) by {
            if j == n {
                assert(s[i].lt(c));
            } else if i == n {
                lemma_column_lt_total(c, s[n]);
                assert(s.contains(s[n]));
                if j - 1 > n {
                    assert(s[n].lt(s[j - 1]));
                    lemma_column_lt_transitive(c, s[n], s[j - 1]);
                }
            } else {
                let x = if i < n {
                    i
                } else {
                    i - 1
                };
                let y = if j < n {
                    j
                } else {
                    j - 1
                };
                assert(s[x].lt(s[y]));
            }
        }
        assert forall|x: ColumnView| #[trigger] r.contains(x) <==> s.contains(x) || x == c by {
            if s.contains(x) {
                let i = choose|i: int| 0 <= i < s.len() && s[i] == x;
                if i < n {
                    assert(r[i] == x);
                } else {
                    assert(r[i + 1] == x);
                }
            }
            if x == c {
                assert(r[n] == x);
            }
            if r.contains(x) && x != c {
                let i = choose|i: int| 0 <= i < r.len() && r[i] == x;
                if i < n {
                    assert(s[i] == x);
                } else {
                    assert(s[i - 1] == x);
                }
            }
        }
    }
}

/// The union of two sets is in order, and has the columns of both.
pub proof fn lemma_union(a: Seq<ColumnView>, b: Seq<ColumnView>)
    requires
        sorted(a),
    ensures
        sorted(union(a, b)),
        forall|x: ColumnView| #[trigger]
            union(a, b).contains(x) <==> a.contains(x) || b.contains(x),
    decreases b.len(),
{
    if b.len() > 0 {
        let front = b.drop_last();
        lemma_union(a, front);
        lemma_with_column(union(a, front), b.last());
        assert forall|x: ColumnView| #[trigger]
            union(a, b).contains(x) <==> a.contains(x) || b.contains(x) by {
            if b.contains(x) && x != b.last() {
                let i = choose|i: int| 0 <= i < b.len() && b[i] == x;
                assert(front[i] == x);
            }
            if front.contains(x) {
                let i = choose|i: int| 0 <= i < front.len() && front[i] == x;
                assert(b[i] == x);
            }
            assert(b[b.len() - 1] == b.last());
        }
    }
}

/// The difference of two sets has the columns of the first that the second
/// does not have.
pub proof fn lemma_difference(a: Seq<ColumnView>, b: Seq<ColumnView>)
    ensures
        forall|x: ColumnView| #[trigger]
            difference(a, b).contains(x) <==> a.contains(x) && !b.contains(x),
    decreases a.len(),
{
    if a.len() > 0 {
        let front = a.drop_last();
        lemma_difference(front, b);
        assert forall|x: ColumnView| #[trigger]
            difference(a, b).contains(x) <==> a.contains(x) && !b.contains(x) by {
            let d = difference(front, b);
            if a.contains(x) && x != a.last() {
                let i = choose|i: int| 0 <= i < a.len() && a[i] == x;
                assert(front[i] == x);
            }
            if front.contains(x) {
                let i = choose|i: int| 0 <= i < front.len() && front[i] == x;
                assert(a[i] == x);
            }
            assert(a[a.len() - 1] == a.last());
            if !b.contains(a.last()) {
                assert(difference(a, b) == d.push(a.last()));
                if d.contains(x) {
                    let i = choose|i: int| 0 <= i < d.len() && d[i] == x;
                    assert(d.push(a.last())[i] == x);
                }
                if difference(a, b).contains(x) && x != a.last() {
                    let i = choose|i: int|
                        0 <= i < d.push(a.last()).len() && d.push(a.last())[i] == x;
                    assert(d[i] == x);
                }
                assert(d.push(a.last())[d.len() as int] == a.last());
            }
        }
    }
}

/// A set of columns that are all considered to be equivalent.
#[derive(Debug, PartialEq, Eq, Hash)]
pub struct ColumnEquivalenceClass {
    pub columns: Vec<Column>,
}

impl View for ColumnEquivalenceClass {
    type V = Seq<ColumnView>;

    open spec fn view(&self) -> Seq<ColumnView> {
        columns_view(self.columns@)
    }
}

/// The columns of a list of classes.
pub open spec fn classes_view(s: Seq<ColumnEquivalenceClass>) -> Seq<Seq<ColumnView>> {
    Seq::new(s.len(), |i: int| s[i]@)
}

impl ColumnEquivalenceClass {
    /// The class of one column.
    pub fn new_singleton(column: Column) -> (r: Self)
        ensures
            r@ == seq![column@],
            sorted(r@),
    {
        let mut columns: Vec<Column> = Vec::new();
        columns.push(column);
        let r = ColumnEquivalenceClass { columns };
        assert(r@ =~= seq![column@]);
        r
    }

    /// The class of two columns.
    pub fn new(first: Column, second: Column) -> (r: Self)
        ensures
            r@ == with_column(seq![first@], second@),
            sorted(r@),
    {
        let mut r = ColumnEquivalenceClass::new_singleton(first);
        r.insert(second);
        r
    }

    /// Whether the class has a column.
    pub fn contains(&self, column: &Column) -> (r: bool)
        ensures
            r == self@.contains(column@),
    {
        crate::schema::has_column(&self.columns, column)
    }

    /// Adds a column to the class.
    pub fn insert(&mut self, column: Column)
        requires
            sorted(old(self)@),
        ensures
            final(self)@ == with_column(old(self)@, column@),
            sorted(final(self)@),
    {
        let ghost s = self@;
        proof {
            lemma_with_column(s, column@);
            lemma_sorted_contains(s, column@);
        }
        let mut i: usize = 0;
        while i < self.columns.len()
            invariant_except_break
                forall|j: int| 0 <= j < i ==> (#[trigger] s[j]).lt(column@),
            invariant
                s == self@,
                i <= self.columns@.len(),
                *self == *old(self),
            ensures
                forall|j: int| 0 <= j < i ==> (#[trigger] s[j]).lt(column@),
                i < s.len() ==> !s[i as int].lt(column@),
            decreases self.columns@.len() - i,
        {
            assert(s[i as int] == self.columns@[i as int]@);
            match self.columns[i].order(&column) {
                Order::Less => {
                    i = i + 1;
                },
                _ => {
                    break;
                },
            }
        }
        proof {
            lemma_below_unique(s, column@, i as int);
        }
        if i < self.columns.len() && self.columns[i].same(&column) {
            assert(s[i as int] == column@);
            return ;
        }
        assert(i < s.len() ==> s[i as int] == self.columns@[i as int]@);
        self.columns.insert(i, column);
        assert(self@ =~= s.insert(i as int, column@));
    }

    /// Adds the columns of another class.
    pub fn extend(&mut self, other: Self)
        requires
            sorted(old(self)@),
        ensures
            final(self)@ == union(old(self)@, other@),
            sorted(final(self)@),
    {
        let ghost a = self@;
        let ghost b = other@;
        for i in 0..other.columns.len()
            invariant
                b == other@,
                sorted(self@),
                self@ == union(a, b.take(i as int)),
        {
            assert(b.take(i + 1).drop_last() =~= b.take(i as int));
            self.insert(other.columns[i].clone());
        }
        assert(b.take(b.len() as int) =~= b);
    }

    /// Whether every column of this class is in the other.
    pub fn is_subset(&self, other: &Self) -> (r: bool)
        ensures
            r == subset(self@, other@),
    {
        for i in 0..self.columns.len()
            invariant
                forall|j: int| 0 <= j < i ==> other@.contains(#[trigger] self@[j]),
        {
            if !other.contains(&self.columns[i]) {
                assert(!other@.contains(self@[i as int]));
                return false;
            }
        }
        true
    }

    /// The columns of this class that the other does not have, in order.
    pub fn difference(&self, other: &Self) -> (r: Vec<Column>)
        ensures
            columns_view(r@) == difference(self@, other@),
    {
        let ghost a = self@;
        let mut r: Vec<Column> = Vec::new();
        assert(columns_view(r@) =~= Seq::empty());
        for i in 0..self.columns.len()
            invariant
                a == self@,
                columns_view(r@) == difference(a.take(i as int), other@),
        {
            assert(a.take(i + 1).drop_last() =~= a.take(i as int));
            if !other.contains(&self.columns[i]) {
                let ghost before = r@;
                r.push(self.columns[i].clone());
                assert(columns_view(r@) =~= columns_view(before).push(a[i as int]));
            }
        }
        assert(a.take(a.len() as int) =~= a);
        r
    }
}

impl Clone for ColumnEquivalenceClass {
    fn clone(&self) -> (r: Self)
        ensures
            r@ == self@,
    {
        ColumnEquivalenceClass { columns: crate::names::clone_columns(&self.columns) }
    }
}

/// What is left of a set stays in order.
pub proof fn differences_stay_in_order(a: Seq<ColumnView>, b: Seq<ColumnView>)
    requires
        sorted(a),
    ensures
        sorted(difference(a, b)),
        forall|x: ColumnView| #[trigger]
            difference(a, b).contains(x) <==> a.contains(x) && !b.contains(x),
    decreases a.len(),
{
    lemma_difference(a, b);
    if a.len() > 0 {
        let front = a.drop_last();
        assert forall|i: int, j: int| 0 <= i < j < front.len() implies (#[trigger] front[i]).lt(
            #[trigger] front[j],
        ) by {
            assert(a[i].lt(a[j]));
        }
        differences_stay_in_order(front, b);
        let rest = difference(front, b);
        let r = difference(a, b);
        assert forall|i: int, j: int| 0 <= i < j < r.len() implies (#[trigger] r[i]).lt(
            #[trigger] r[j],
        ) by {
            if j < rest.len() {
                assert(rest[i].lt(rest[j]));
            } else {
                assert(rest.contains(rest[i]));
                assert(front.contains(rest[i]));
                let k = choose|k: int| 0 <= k < front.len() && front[k] == rest[i];
                assert(a[k].lt(a[a.len() - 1]));
            }
        }
    }
}

} // verus!
