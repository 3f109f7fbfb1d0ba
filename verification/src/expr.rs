//! Scalar expressions.
use vstd::prelude::*;

use crate::names::{
    clone_relation, relation_view, Column, ColumnView, TableReference, TableReferenceView,
};
use crate::scalar::{ScalarValue, ScalarView};

verus! {

/// A binary operator.
#[derive(Debug, Clone, Copy, PartialEq, Eq, Hash, Structural)]
pub enum Operator {
    Eq,
    NotEq,
    Lt,
    LtEq,
    Gt,
    GtEq,
    Plus,
    Minus,
    Multiply,
    Divide,
    Modulo,
    And,
    Or,
    IsDistinctFrom,
    IsNotDistinctFrom,
    RegexMatch,
    RegexIMatch,
    RegexNotMatch,
    RegexNotIMatch,
    LikeMatch,
    ILikeMatch,
    NotLikeMatch,
    NotILikeMatch,
    BitwiseAnd,
    BitwiseOr,
    BitwiseXor,
    BitwiseShiftRight,
    BitwiseShiftLeft,
    StringConcat,
    AtArrow,
    ArrowAt,
    Arrow,
    LongArrow,
    HashArrow,
    HashLongArrow,
    AtAt,
    IntegerDivide,
    HashMinus,
    AtQuestion,
    Question,
    QuestionAnd,
    QuestionPipe,
}

/// The operator that is true where the given one is false.
pub open spec fn negated(op: Operator) -> Option<Operator> {
    match op {
        Operator::Eq => Some(Operator::NotEq),
        Operator::NotEq => Some(Operator::Eq),
        Operator::Lt => Some(Operator::GtEq),
        Operator::LtEq => Some(Operator::Gt),
        Operator::Gt => Some(Operator::LtEq),
        Operator::GtEq => Some(Operator::Lt),
        Operator::IsDistinctFrom => Some(Operator::IsNotDistinctFrom),
        Operator::IsNotDistinctFrom => Some(Operator::IsDistinctFrom),
        Operator::LikeMatch => Some(Operator::NotLikeMatch),
        Operator::ILikeMatch => Some(Operator::NotILikeMatch),
        Operator::NotLikeMatch => Some(Operator::LikeMatch),
        Operator::NotILikeMatch => Some(Operator::ILikeMatch),
        _ => None,
    }
}

/// The operator that gives the same result with its sides exchanged.
pub open spec fn swapped(op: Operator) -> Option<Operator> {
    match op {
        Operator::Eq => Some(Operator::Eq),
        Operator::NotEq => Some(Operator::NotEq),
        Operator::Lt => Some(Operator::Gt),
        Operator::LtEq => Some(Operator::GtEq),
        Operator::Gt => Some(Operator::Lt),
        Operator::GtEq => Some(Operator::LtEq),
        Operator::AtArrow => Some(Operator::ArrowAt),
        Operator::ArrowAt => Some(Operator::AtArrow),
        _ => None,
    }
}

impl Operator {
    /// The operator that is true where this one is false, where there is one.
    pub fn negate(&self) -> (r: Option<Operator>)
        ensures
            r == negated(*self),
    {
        match self {
            Operator::Eq => Some(Operator::NotEq),
            Operator::NotEq => Some(Operator::Eq),
            Operator::Lt => Some(Operator::GtEq),
            Operator::LtEq => Some(Operator::Gt),
            Operator::Gt => Some(Operator::LtEq),
            Operator::GtEq => Some(Operator::Lt),
            Operator::IsDistinctFrom => Some(Operator::IsNotDistinctFrom),
            Operator::IsNotDistinctFrom => Some(Operator::IsDistinctFrom),
            Operator::LikeMatch => Some(Operator::NotLikeMatch),
            Operator::ILikeMatch => Some(Operator::NotILikeMatch),
            Operator::NotLikeMatch => Some(Operator::LikeMatch),
            Operator::NotILikeMatch => Some(Operator::ILikeMatch),
            _ => None,
        }
    }

    /// The operator that gives the same result with its sides exchanged, where
    /// there is one.
    pub fn swap(&self) -> (r: Option<Operator>)
        ensures
            r == swapped(*self),
    {
        match self {
            Operator::Eq => Some(Operator::Eq),
            Operator::NotEq => Some(Operator::NotEq),
            Operator::Lt => Some(Operator::Gt),
            Operator::LtEq => Some(Operator::GtEq),
            Operator::Gt => Some(Operator::Lt),
            Operator::GtEq => Some(Operator::LtEq),
            Operator::AtArrow => Some(Operator::ArrowAt),
            Operator::ArrowAt => Some(Operator::AtArrow),
            _ => None,
        }
    }
}

/// A scalar expression.
///
/// `Other` is every kind of expression that is not looked into but for its
/// operands. Its number stands for all the rest of the node: two nodes with one
/// number differ in their operands alone. The numbers in `Literal` and `Alias`
/// stand in the same way for the metadata that the node carries.
#[derive(Debug, PartialEq, Eq, Hash)]
pub enum Expr {
    Column(Column),
    Literal(ScalarValue, Option<u64>),
    BinaryExpr { left: Box<Expr>, op: Operator, right: Box<Expr> },
    Not(Box<Expr>),
    Alias {
        expr: Box<Expr>,
        relation: Option<TableReference>,
        name: String,
        metadata: Option<u64>,
    },
    Other { id: u64, children: Vec<Expr> },
}

/// The texts and values of an [`Expr`].
pub enum ExprView {
    Column(ColumnView),
    Literal(ScalarView, Option<u64>),
    BinaryExpr { left: Box<ExprView>, op: Operator, right: Box<ExprView> },
    Not(Box<ExprView>),
    Alias {
        expr: Box<ExprView>,
        relation: Option<TableReferenceView>,
        name: Seq<char>,
        metadata: Option<u64>,
    },
    Other { id: u64, children: Seq<ExprView> },
}

impl Expr {
    pub open spec fn view(&self) -> ExprView
        decreases self,
    {
        match *self {
            Expr::Column(c) => ExprView::Column(c@),
            Expr::Literal(v, metadata) => ExprView::Literal(v@, metadata),
            Expr::BinaryExpr { left, op, right } => ExprView::BinaryExpr {
                left: Box::new((*left).view()),
                op,
                right: Box::new((*right).view()),
            },
            Expr::Not(e) => ExprView::Not(Box::new((*e).view())),
            Expr::Alias { expr, relation, name, metadata } => ExprView::Alias {
                expr: Box::new((*expr).view()),
                relation: relation_view(relation),
                name: name@,
                metadata,
            },
            Expr::Other { id, children } => ExprView::Other { id, children: exprs_view(children@) },
        }
    }
}

/// The views of a list of expressions.
pub open spec fn exprs_view(s: Seq<Expr>) -> Seq<ExprView>
    decreases s,
{
    Seq::new(
        s.len(),
        |i: int|
            if 0 <= i < s.len() {
                s[i].view()
            } else {
                arbitrary()
            },
    )
}

impl Clone for Expr {
    fn clone(&self) -> (r: Self)
        ensures
            r@ == self@,
        decreases self,
    {
        match self {
            Expr::Column(c) => Expr::Column(c.clone()),
            Expr::Literal(v, metadata) => Expr::Literal(v.clone(), *metadata),
            Expr::BinaryExpr { left, op, right } => {
                let l = (**left).clone();
                let r = (**right).clone();
                Expr::BinaryExpr { left: Box::new(l), op: *op, right: Box::new(r) }
            },
            Expr::Not(e) => {
                let e = (**e).clone();
                Expr::Not(Box::new(e))
            },
            Expr::Alias { expr, relation, name, metadata } => {
                let e = (**expr).clone();
                Expr::Alias {
                    expr: Box::new(e),
                    relation: clone_relation(relation),
                    name: name.clone(),
                    metadata: *metadata,
                }
            },
            Expr::Other { id, children } => {
                let mut copies: Vec<Expr> = Vec::new();
                for i in 0..children.len()
                    invariant
                        decreases_to!(self => children),
                        copies@.len() == i,
                        forall|j: int| 0 <= j < i ==> (#[trigger] copies@[j])@ == children@[j]@,
                {
                    let c = children[i].clone();
                    copies.push(c);
                }
                assert(exprs_view(copies@) =~= exprs_view(children@));
                Expr::Other { id: *id, children: copies }
            },
        }
    }
}

/// Copies a list of expressions.
pub fn clone_exprs(v: &Vec<Expr>) -> (r: Vec<Expr>)
    ensures
        exprs_view(r@) == exprs_view(v@),
{
    let mut r: Vec<Expr> = Vec::new();
    for i in 0..v.len()
        invariant
            r@.len() == i,
            forall|j: int| 0 <= j < i ==> (#[trigger] r@[j])@ == v@[j]@,
    {
        r.push(v[i].clone());
    }
    assert(exprs_view(r@) =~= exprs_view(v@));
    r
}

impl ExprView {
    /// Some column of the expression names its table.
    pub open spec fn has_qualified_column(self) -> bool
        decreases self,
    {
        match self {
            ExprView::Column(c) => c.relation is Some,
            ExprView::Literal(_, _) => false,
            ExprView::BinaryExpr { left, right, .. } => (*left).has_qualified_column()
                || (*right).has_qualified_column(),
            ExprView::Not(e) => (*e).has_qualified_column(),
            ExprView::Alias { expr, .. } => (*expr).has_qualified_column(),
            ExprView::Other { children, .. } => have_qualified_columns(children).contains(true),
        }
    }

    /// The expressions whose conjunction this one is, from left to right. An
    /// alias is looked through.
    pub open spec fn conjuncts(self) -> Seq<ExprView>
        decreases self,
    {
        match self {
            ExprView::BinaryExpr { left, op: Operator::And, right } => (*left).conjuncts()
                + (*right).conjuncts(),
            ExprView::Alias { expr, .. } => (*expr).conjuncts(),
            _ => seq![self],
        }
    }
}

/// For each expression of a list, whether some column of it names its table.
pub open spec fn have_qualified_columns(s: Seq<ExprView>) -> Seq<bool>
    decreases s,
{
    Seq::new(
        s.len(),
        |i: int|
            if 0 <= i < s.len() {
                s[i].has_qualified_column()
            } else {
                arbitrary()
            },
    )
}

/// The conjuncts of a list of expressions, one after the other.
pub open spec fn all_conjuncts(s: Seq<ExprView>) -> Seq<ExprView>
    decreases s.len(),
{
    if s.len() == 0 {
        Seq::empty()
    } else {
        all_conjuncts(s.drop_last()) + s.last().conjuncts()
    }
}

/// The first place of an expression in a list, where it is there.
pub open spec fn position(s: Seq<ExprView>, e: ExprView) -> Option<int>
    decreases s.len(),
{
    if s.len() == 0 {
        None
    } else {
        match position(s.drop_last(), e) {
            Some(i) => Some(i),
            None => if s.last() == e {
                Some(s.len() - 1)
            } else {
                None
            },
        }
    }
}

/// An expression is in a list where it has a place in it.
pub proof fn lemma_position(s: Seq<ExprView>, e: ExprView)
    ensures
        position(s, e) is Some <==> s.contains(e),
        position(s, e) is Some ==> 0 <= position(s, e)->0 < s.len() && s[position(s, e)->0] == e,
    decreases s.len(),
{
    if s.len() > 0 {
        let front = s.drop_last();
        lemma_position(front, e);
        if front.contains(e) {
            let i = choose|i: int| 0 <= i < front.len() && front[i] == e;
            assert(s[i] == e);
        }
        if s.contains(e) {
            let i = choose|i: int| 0 <= i < s.len() && s[i] == e;
            if i < s.len() - 1 {
                assert(front[i] == e);
            }
        }
        assert(s[s.len() - 1] == s.last());
    }
}

fn same_relation(a: &Option<TableReference>, b: &Option<TableReference>) -> (r: bool)
    ensures
        r == (relation_view(*a) == relation_view(*b)),
{
    match (a, b) {
        (None, None) => true,
        (Some(x), Some(y)) => x.same(y),
        _ => false,
    }
}

impl Expr {
    /// Whether the two expressions are equal.
    pub fn same(&self, other: &Expr) -> (r: bool)
        ensures
            r == (self@ == other@),
        decreases self,
    {
        match (self, other) {
            (Expr::Column(a), Expr::Column(b)) => a.same(b),
            (Expr::Literal(a, m), Expr::Literal(b, n)) => a.same(b) && *m == *n,
            (
                Expr::BinaryExpr { left: a, op: o, right: b },
                Expr::BinaryExpr { left: c, op: p, right: d },
            ) => {
                let left = (**a).same(&**c);
                let right = (**b).same(&**d);
                left && *o == *p && right
            },
            (Expr::Not(a), Expr::Not(b)) => (**a).same(&**b),
            (
                Expr::Alias { expr: a, relation: q, name: n, metadata: m },
                Expr::Alias { expr: b, relation: r, name: o, metadata: k },
            ) => {
                let inner = (**a).same(&**b);
                inner && same_relation(q, r) && *n == *o && *m == *k
            },
            (Expr::Other { id: i, children: a }, Expr::Other { id: j, children: b }) => {
                if *i != *j || a.len() != b.len() {
                    assert(exprs_view(a@).len() == a@.len());
                    assert(exprs_view(b@).len() == b@.len());
                    return false;
                }
                for k in 0..a.len()
                    invariant
                        decreases_to!(self => a),
                        a@.len() == b@.len(),
                        forall|n: int| 0 <= n < k ==> (#[trigger] a@[n])@ == b@[n]@,
                        self@ == (ExprView::Other { id: *i, children: exprs_view(a@) }),
                        other@ == (ExprView::Other { id: *j, children: exprs_view(b@) }),
                {
                    if !a[k].same(&b[k]) {
                        proof {
                            assert(exprs_view(a@)[k as int] == a@[k as int]@);
                            assert(exprs_view(b@)[k as int] == b@[k as int]@);
                        }
                        return false;
                    }
                }
                assert(exprs_view(a@) =~= exprs_view(b@));
                true
            },
            _ => false,
        }
    }

    /// Whether some column of the expression names its table.
    pub fn has_qualified_column(&self) -> (r: bool)
        ensures
            r == self@.has_qualified_column(),
        decreases self,
    {
        match self {
            Expr::Column(c) => c.relation.is_some(),
            Expr::Literal(_, _) => false,
            Expr::BinaryExpr { left, right, .. } => {
                let l = (**left).has_qualified_column();
                let r = (**right).has_qualified_column();
                l || r
            },
            Expr::Not(e) => (**e).has_qualified_column(),
            Expr::Alias { expr, .. } => (**expr).has_qualified_column(),
            Expr::Other { children, .. } => {
                for i in 0..children.len()
                    invariant
                        decreases_to!(self => children),
                        forall|j: int| 0 <= j < i ==> !(#[trigger] children@[j])@.has_qualified_column(),
                        self@ matches ExprView::Other { children: c, .. } && c == exprs_view(
                            children@,
                        ),
                {
                    if children[i].has_qualified_column() {
                        assert(have_qualified_columns(exprs_view(children@))[i as int]);
                        return true;
                    }
                }
                assert(forall|j: int|
                    0 <= j < children@.len() ==> !have_qualified_columns(exprs_view(children@))[j]);
                assert(!have_qualified_columns(exprs_view(children@)).contains(true));
                false
            },
        }
    }

    /// The expressions whose conjunction this one is, from left to right.
    pub fn split_conjunction(&self) -> (r: Vec<Expr>)
        ensures
            exprs_view(r@) == self@.conjuncts(),
        decreases self,
    {
        match self {
            Expr::BinaryExpr { left, op: Operator::And, right } => {
                let mut r = (**left).split_conjunction();
                let mut rest = (**right).split_conjunction();
                let ghost first = r@;
                let ghost second = rest@;
                r.append(&mut rest);
                assert(exprs_view(first + second) =~= exprs_view(first) + exprs_view(second));
                r
            },
            Expr::Alias { expr, .. } => (**expr).split_conjunction(),
            _ => {
                let mut r: Vec<Expr> = Vec::new();
                r.push(self.clone());
                assert(exprs_view(r@) =~= seq![self@]);
                r
            },
        }
    }
}

/// The first place of an expression in a list, where it is there.
pub fn find_expr(v: &Vec<Expr>, e: &Expr) -> (r: Option<usize>)
    ensures
        r is Some <==> position(exprs_view(v@), e@) is Some,
        r is Some ==> r->0 == position(exprs_view(v@), e@)->0 && r->0 < v@.len(),
{
    let ghost views = exprs_view(v@);
    for i in 0..v.len()
        invariant
            views == exprs_view(v@),
            position(views.take(i as int), e@) is None,
    {
        assert(views.take(i + 1).drop_last() =~= views.take(i as int));
        if v[i].same(e) {
            proof {
                lemma_position_prefix(views, i + 1, e@);
            }
            return Some(i);
        }
    }
    assert(views.take(v@.len() as int) =~= views);
    None
}

/// A place in the front of a list is a place in the list.
proof fn lemma_position_prefix(s: Seq<ExprView>, n: int, e: ExprView)
    requires
        0 <= n <= s.len(),
        position(s.take(n), e) is Some,
    ensures
        position(s, e) == position(s.take(n), e),
    decreases s.len() - n,
{
    if n == s.len() {
        assert(s.take(n) =~= s);
    } else {
        assert(s.take(n + 1).drop_last() =~= s.take(n));
        lemma_position_prefix(s, n + 1, e);
    }
}

/// Two operators are opposites: one is true where the other is false.
pub open spec fn opposites(a: Operator, b: Operator) -> bool {
    ||| a == Operator::Eq && b == Operator::NotEq
    ||| a == Operator::Lt && b == Operator::GtEq
    ||| a == Operator::Gt && b == Operator::LtEq
    ||| a == Operator::IsDistinctFrom && b == Operator::IsNotDistinctFrom
    ||| a == Operator::LikeMatch && b == Operator::NotLikeMatch
    ||| a == Operator::ILikeMatch && b == Operator::NotILikeMatch
}

/// An operator is negated by its opposite, and only by that: a negation undoes
/// itself.
pub proof fn negations_are_opposites(a: Operator, b: Operator)
    ensures
        negated(a) == Some(b) <==> opposites(a, b) || opposites(b, a),
        negated(a) == Some(b) ==> negated(b) == Some(a) && a != b,
{
}

/// Two operators say the same with their sides exchanged.
pub open spec fn mirrored(a: Operator, b: Operator) -> bool {
    ||| a == b && (a == Operator::Eq || a == Operator::NotEq)
    ||| a == Operator::Lt && b == Operator::Gt
    ||| a == Operator::LtEq && b == Operator::GtEq
    ||| a == Operator::AtArrow && b == Operator::ArrowAt
}

/// An operator whose sides are exchanged is its mirror, and only that: exchanging
/// the sides twice changes nothing.
pub proof fn exchanges_mirror_operators(a: Operator, b: Operator)
    ensures
        swapped(a) == Some(b) <==> mirrored(a, b) || mirrored(b, a),
        swapped(a) == Some(b) ==> swapped(b) == Some(a),
{
}

/// Where an expression has a column that names its table, at whatever depth, is a
/// matter of its columns alone: an operator, an alias or another node has one where
/// a part of it does.
pub proof fn parts_name_tables(e: ExprView, i: int)
    ensures
        e matches ExprView::Column(c) ==> (e.has_qualified_column() <==> c.relation is Some),
        e is Literal ==> !e.has_qualified_column(),
        e matches ExprView::BinaryExpr { left, right, .. } ==> (left.has_qualified_column()
            || right.has_qualified_column() <==> e.has_qualified_column()),
        e matches ExprView::Not(x) ==> (x.has_qualified_column() <==> e.has_qualified_column()),
        e matches ExprView::Alias { expr, .. } ==> (expr.has_qualified_column()
            <==> e.has_qualified_column()),
        e matches ExprView::Other { children, .. } ==> 0 <= i < children.len()
            && children[i].has_qualified_column() ==> e.has_qualified_column(),
        e matches ExprView::Other { children, .. } ==> e.has_qualified_column() ==> exists|k: int|
            0 <= k < children.len() && (#[trigger] children[k]).has_qualified_column(),
{
    if let ExprView::Other { children, .. } = e {
        let s = have_qualified_columns(children);
        if 0 <= i < children.len() {
            assert(s[i] == children[i].has_qualified_column());
        }
        if s.contains(true) {
            let k = choose|k: int| 0 <= k < s.len() && s[k];
            assert(s[k] == children[k].has_qualified_column());
        }
    }
}

} // verus!
