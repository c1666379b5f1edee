//! Condition expressions and their constructors.
//!
//! A condition is composed as an eager expression tree
//! ([`VisibilityConditionExpr`]) through the [`empty`], [`attr`], [`not`],
//! [`and`] and [`or`] constructors, then flattened into a
//! [`VisibilityCondition`](crate::visibility_condition::VisibilityCondition).
//! Consolidation removes dead `Empty` branches before flattening.

use vstd::prelude::*;
use crate::visibility_attribute::VisibilityAttribute;
use crate::visibility_attribute::VisibilityAttributeId;

verus! {

/// A visibility condition expression: a boolean combination of attribute
/// leaves.
///
/// `Empty` is the universally-true predicate; it is also used as a dead
/// branch that consolidation removes.
#[derive(Debug)]
#[verifier::ext_equal]
pub enum VisibilityConditionExpr {
    Empty,
    Attr(VisibilityAttributeId),
    Not(Box<VisibilityConditionExpr>),
    And(Box<VisibilityConditionExpr>, Box<VisibilityConditionExpr>),
    Or(Box<VisibilityConditionExpr>, Box<VisibilityConditionExpr>),
}

/// Classical boolean semantics of an expression against an attribute
/// predicate: `Empty` is true, `Attr` queries the predicate, and the
/// combinators fold their branches.
pub open spec fn sem(e: VisibilityConditionExpr, p: spec_fn(VisibilityAttributeId) -> bool) -> bool
    decreases e,
{
    match e {
        VisibilityConditionExpr::Empty => true,
        VisibilityConditionExpr::Attr(a) => p(a),
        VisibilityConditionExpr::Not(c) => !sem(*c, p),
        VisibilityConditionExpr::And(l, r) => sem(*l, p) && sem(*r, p),
        VisibilityConditionExpr::Or(l, r) => sem(*l, p) || sem(*r, p),
    }
}

/// Semantics of an expression against a set of held attributes.
pub open spec fn sem_set(e: VisibilityConditionExpr, attrs: Set<VisibilityAttributeId>) -> bool {
    sem(e, |a: VisibilityAttributeId| attrs.contains(a))
}

/// Whether an expression contains an `Empty` node anywhere.
pub open spec fn contains_empty(e: VisibilityConditionExpr) -> bool
    decreases e,
{
    match e {
        VisibilityConditionExpr::Empty => true,
        VisibilityConditionExpr::Attr(_) => false,
        VisibilityConditionExpr::Not(c) => contains_empty(*c),
        VisibilityConditionExpr::And(l, r) => contains_empty(*l) || contains_empty(*r),
        VisibilityConditionExpr::Or(l, r) => contains_empty(*l) || contains_empty(*r),
    }
}

/// A consolidated expression is either exactly `Empty` or free of `Empty`
/// nodes.
pub open spec fn is_consolidated(e: VisibilityConditionExpr) -> bool {
    e is Empty || !contains_empty(e)
}

/// Consolidation removes dead `Empty` branches: `and(x, empty)` simplifies
/// to `x`, `or(x, empty)` simplifies to `x`, and `not(empty)` collapses to
/// `empty`.
pub open spec fn consolidate(e: VisibilityConditionExpr) -> VisibilityConditionExpr
    decreases e,
{
    match e {
        VisibilityConditionExpr::Empty => VisibilityConditionExpr::Empty,
        VisibilityConditionExpr::Attr(a) => VisibilityConditionExpr::Attr(a),
        VisibilityConditionExpr::Not(c) => {
            let cc = consolidate(*c);
            if cc is Empty {
                VisibilityConditionExpr::Empty
            } else {
                VisibilityConditionExpr::Not(Box::new(cc))
            }
        },
        VisibilityConditionExpr::And(l, r) => {
            let cl = consolidate(*l);
            let cr = consolidate(*r);
            if cl is Empty {
                cr
            } else if cr is Empty {
                cl
            } else {
                VisibilityConditionExpr::And(Box::new(cl), Box::new(cr))
            }
        },
        VisibilityConditionExpr::Or(l, r) => {
            let cl = consolidate(*l);
            let cr = consolidate(*r);
            if cl is Empty {
                cr
            } else if cr is Empty {
                cl
            } else {
                VisibilityConditionExpr::Or(Box::new(cl), Box::new(cr))
            }
        },
    }
}

/// The number of nodes the expression occupies in flattened form.
pub open spec fn expr_size(e: VisibilityConditionExpr) -> nat
    decreases e,
{
    match e {
        VisibilityConditionExpr::Empty => 1,
        VisibilityConditionExpr::Attr(_) => 1,
        VisibilityConditionExpr::Not(c) => 1 + expr_size(*c),
        VisibilityConditionExpr::And(l, r) => 1 + expr_size(*l) + expr_size(*r),
        VisibilityConditionExpr::Or(l, r) => 1 + expr_size(*l) + expr_size(*r),
    }
}

/// Consolidation yields a consolidated expression.
pub proof fn lemma_consolidate_consolidated(e: VisibilityConditionExpr)
    ensures
        is_consolidated(consolidate(e)),
    decreases e,
{
    match e {
        VisibilityConditionExpr::Empty => {},
        VisibilityConditionExpr::Attr(_) => {},
        VisibilityConditionExpr::Not(c) => {
            lemma_consolidate_consolidated(*c);
        },
        VisibilityConditionExpr::And(l, r) => {
            lemma_consolidate_consolidated(*l);
            lemma_consolidate_consolidated(*r);
        },
        VisibilityConditionExpr::Or(l, r) => {
            lemma_consolidate_consolidated(*l);
            lemma_consolidate_consolidated(*r);
        },
    }
}

/// An expression free of `Empty` nodes is in particular not `Empty` itself.
proof fn lemma_no_empty_not_empty(e: VisibilityConditionExpr)
    requires
        !contains_empty(e),
    ensures
        !(e is Empty),
{
    if e is Empty {
        assert(contains_empty(e));
    }
}

/// A consolidated expression is a fixed point of consolidation.
pub proof fn lemma_consolidate_fixed(e: VisibilityConditionExpr)
    requires
        is_consolidated(e),
    ensures
        consolidate(e) == e,
    decreases e,
{
    match e {
        VisibilityConditionExpr::Empty => {},
        VisibilityConditionExpr::Attr(_) => {},
        VisibilityConditionExpr::Not(c) => {
            lemma_no_empty_not_empty(*c);
            lemma_consolidate_fixed(*c);
            assert(consolidate(e) =~= e);
        },
        VisibilityConditionExpr::And(l, r) => {
            lemma_no_empty_not_empty(*l);
            lemma_no_empty_not_empty(*r);
            lemma_consolidate_fixed(*l);
            lemma_consolidate_fixed(*r);
            assert(consolidate(e) =~= e);
        },
        VisibilityConditionExpr::Or(l, r) => {
            lemma_no_empty_not_empty(*l);
            lemma_no_empty_not_empty(*r);
            lemma_consolidate_fixed(*l);
            lemma_consolidate_fixed(*r);
            assert(consolidate(e) =~= e);
        },
    }
}

/// Consolidation is idempotent: consolidating an already-consolidated
/// expression changes nothing.
pub proof fn lemma_consolidate_idempotent(e: VisibilityConditionExpr)
    ensures
        consolidate(consolidate(e)) == consolidate(e),
{
    lemma_consolidate_consolidated(e);
    lemma_consolidate_fixed(consolidate(e));
}

/// `and(C, empty)` and `and(empty, C)` consolidate exactly as `C` does, for
/// every expression `C`.
pub proof fn lemma_and_empty_identity(e: VisibilityConditionExpr)
    ensures
        consolidate(
            VisibilityConditionExpr::And(Box::new(e), Box::new(VisibilityConditionExpr::Empty)),
        ) == consolidate(e),
        consolidate(
            VisibilityConditionExpr::And(Box::new(VisibilityConditionExpr::Empty), Box::new(e)),
        ) == consolidate(e),
{
    let right = VisibilityConditionExpr::And(
        Box::new(e),
        Box::new(VisibilityConditionExpr::Empty),
    );
    let left = VisibilityConditionExpr::And(
        Box::new(VisibilityConditionExpr::Empty),
        Box::new(e),
    );
    assert(*right->And_0 == e && *right->And_1 == VisibilityConditionExpr::Empty);
    assert(*left->And_0 == VisibilityConditionExpr::Empty && *left->And_1 == e);
    assert(consolidate(VisibilityConditionExpr::Empty) == VisibilityConditionExpr::Empty);
    if consolidate(e) is Empty {
        assert(consolidate(right) == consolidate(e));
        assert(consolidate(left) == consolidate(e));
    } else {
        assert(consolidate(right) == consolidate(e));
        assert(consolidate(left) == consolidate(e));
    }
}

/// `or(C, empty)` and `or(empty, C)` consolidate exactly as `C` does, for
/// every expression `C`.
pub proof fn lemma_or_empty_identity(e: VisibilityConditionExpr)
    ensures
        consolidate(
            VisibilityConditionExpr::Or(Box::new(e), Box::new(VisibilityConditionExpr::Empty)),
        ) == consolidate(e),
        consolidate(
            VisibilityConditionExpr::Or(Box::new(VisibilityConditionExpr::Empty), Box::new(e)),
        ) == consolidate(e),
{
    let right = VisibilityConditionExpr::Or(
        Box::new(e),
        Box::new(VisibilityConditionExpr::Empty),
    );
    let left = VisibilityConditionExpr::Or(
        Box::new(VisibilityConditionExpr::Empty),
        Box::new(e),
    );
    assert(*right->Or_0 == e && *right->Or_1 == VisibilityConditionExpr::Empty);
    assert(*left->Or_0 == VisibilityConditionExpr::Empty && *left->Or_1 == e);
    assert(consolidate(VisibilityConditionExpr::Empty) == VisibilityConditionExpr::Empty);
    if consolidate(e) is Empty {
        assert(consolidate(right) == consolidate(e));
        assert(consolidate(left) == consolidate(e));
    } else {
        assert(consolidate(right) == consolidate(e));
        assert(consolidate(left) == consolidate(e));
    }
}

/// `not(empty)` consolidates to `empty`.
pub proof fn lemma_not_empty_identity()
    ensures
        consolidate(VisibilityConditionExpr::Not(Box::new(VisibilityConditionExpr::Empty)))
            == VisibilityConditionExpr::Empty,
{
    let ne = VisibilityConditionExpr::Not(Box::new(VisibilityConditionExpr::Empty));
    assert(*ne->Not_0 == VisibilityConditionExpr::Empty);
    assert(consolidate(VisibilityConditionExpr::Empty) == VisibilityConditionExpr::Empty);
    assert(consolidate(ne) == VisibilityConditionExpr::Empty);
}

impl Clone for VisibilityConditionExpr {
    /// Deep copy; the clone equals the original.
    fn clone(&self) -> (r: Self)
        ensures
            r == *self,
        decreases *self,
    {
        match self {
            VisibilityConditionExpr::Empty => VisibilityConditionExpr::Empty,
            VisibilityConditionExpr::Attr(a) => VisibilityConditionExpr::Attr(*a),
            VisibilityConditionExpr::Not(c) => VisibilityConditionExpr::Not(
                Box::new((**c).clone()),
            ),
            VisibilityConditionExpr::And(l, r) => VisibilityConditionExpr::And(
                Box::new((**l).clone()),
                Box::new((**r).clone()),
            ),
            VisibilityConditionExpr::Or(l, r) => VisibilityConditionExpr::Or(
                Box::new((**l).clone()),
                Box::new((**r).clone()),
            ),
        }
    }
}

/// Structural equality of two expressions.
pub fn expr_eq(a: &VisibilityConditionExpr, b: &VisibilityConditionExpr) -> (r: bool)
    ensures
        r == (*a == *b),
    decreases *a,
{
    match (a, b) {
        (VisibilityConditionExpr::Empty, VisibilityConditionExpr::Empty) => true,
        (VisibilityConditionExpr::Attr(x), VisibilityConditionExpr::Attr(y)) => *x == *y,
        (VisibilityConditionExpr::Not(c), VisibilityConditionExpr::Not(d)) => expr_eq(c, d),
        (VisibilityConditionExpr::And(l1, r1), VisibilityConditionExpr::And(l2, r2)) => {
            expr_eq(l1, l2) && expr_eq(r1, r2)
        },
        (VisibilityConditionExpr::Or(l1, r1), VisibilityConditionExpr::Or(l2, r2)) => {
            expr_eq(l1, l2) && expr_eq(r1, r2)
        },
        _ => false,
    }
}

/// Consolidates an expression.
pub fn consolidate_expr(e: VisibilityConditionExpr) -> (r: VisibilityConditionExpr)
    ensures
        r == consolidate(e),
    decreases e,
{
    match e {
        VisibilityConditionExpr::Empty => VisibilityConditionExpr::Empty,
        VisibilityConditionExpr::Attr(a) => VisibilityConditionExpr::Attr(a),
        VisibilityConditionExpr::Not(c) => {
            let cc = consolidate_expr(*c);
            if matches!(cc, VisibilityConditionExpr::Empty) {
                VisibilityConditionExpr::Empty
            } else {
                VisibilityConditionExpr::Not(Box::new(cc))
            }
        },
        VisibilityConditionExpr::And(l, r) => {
            let cl = consolidate_expr(*l);
            let cr = consolidate_expr(*r);
            if matches!(cl, VisibilityConditionExpr::Empty) {
                cr
            } else if matches!(cr, VisibilityConditionExpr::Empty) {
                cl
            } else {
                VisibilityConditionExpr::And(Box::new(cl), Box::new(cr))
            }
        },
        VisibilityConditionExpr::Or(l, r) => {
            let cl = consolidate_expr(*l);
            let cr = consolidate_expr(*r);
            if matches!(cl, VisibilityConditionExpr::Empty) {
                cr
            } else if matches!(cr, VisibilityConditionExpr::Empty) {
                cl
            } else {
                VisibilityConditionExpr::Or(Box::new(cl), Box::new(cr))
            }
        },
    }
}

/// Represents a type that can convert into a visibility condition
/// expression.
///
/// Attribute types, expressions, and built conditions all convert; the
/// constructors below accept any of them.
pub trait IntoVisibilityCondition: Sized {
    /// The expression this value denotes, as a spec-level value.
    spec fn as_expr(&self) -> VisibilityConditionExpr;

    /// Builds the condition expression.
    fn build(self) -> (r: VisibilityConditionExpr)
        ensures
            r == self.as_expr(),
    ;
}

impl IntoVisibilityCondition for VisibilityConditionExpr {
    open spec fn as_expr(&self) -> VisibilityConditionExpr {
        *self
    }

    fn build(self) -> VisibilityConditionExpr {
        self
    }
}

impl<T: VisibilityAttribute> IntoVisibilityCondition for T {
    open spec fn as_expr(&self) -> VisibilityConditionExpr {
        VisibilityConditionExpr::Attr(
            VisibilityAttributeId { type_tag: T::spec_type_tag(), inner: self.spec_inner_id() },
        )
    }

    fn build(self) -> VisibilityConditionExpr {
        VisibilityConditionExpr::Attr(self.attribute_id())
    }
}

/// Creates an EMPTY visibility condition: the universally-true predicate.
pub fn empty() -> (r: VisibilityConditionExpr)
    ensures
        r == VisibilityConditionExpr::Empty,
{
    VisibilityConditionExpr::Empty
}

/// Creates an ATTRIBUTE visibility condition from an attribute instance.
pub fn attr<T: VisibilityAttribute>(a: T) -> (r: VisibilityConditionExpr)
    ensures
        r == a.as_expr(),
{
    a.build()
}

/// Creates a NOT visibility condition.
pub fn not<C: IntoVisibilityCondition>(a: C) -> (r: VisibilityConditionExpr)
    ensures
        r == VisibilityConditionExpr::Not(Box::new(a.as_expr())),
{
    VisibilityConditionExpr::Not(Box::new(a.build()))
}

/// Creates an AND visibility condition.
pub fn and<A: IntoVisibilityCondition, B: IntoVisibilityCondition>(a: A, b: B) -> (r:
    VisibilityConditionExpr)
    ensures
        r == VisibilityConditionExpr::And(Box::new(a.as_expr()), Box::new(b.as_expr())),
{
    VisibilityConditionExpr::And(Box::new(a.build()), Box::new(b.build()))
}

/// Creates an OR visibility condition.
pub fn or<A: IntoVisibilityCondition, B: IntoVisibilityCondition>(a: A, b: B) -> (r:
    VisibilityConditionExpr)
    ensures
        r == VisibilityConditionExpr::Or(Box::new(a.as_expr()), Box::new(b.as_expr())),
{
    VisibilityConditionExpr::Or(Box::new(a.build()), Box::new(b.build()))
}

/// The expression after replacing, in a pre-order walk, every subtree equal
/// to `pattern` by `replacement`, without descending into replaced or
/// matched regions.
pub open spec fn replace_expr(
    e: VisibilityConditionExpr,
    pattern: VisibilityConditionExpr,
    replacement: VisibilityConditionExpr,
) -> VisibilityConditionExpr
    decreases e,
{
    if e == pattern {
        replacement
    } else {
        match e {
            VisibilityConditionExpr::Not(c) => VisibilityConditionExpr::Not(
                Box::new(replace_expr(*c, pattern, replacement)),
            ),
            VisibilityConditionExpr::And(l, r) => VisibilityConditionExpr::And(
                Box::new(replace_expr(*l, pattern, replacement)),
                Box::new(replace_expr(*r, pattern, replacement)),
            ),
            VisibilityConditionExpr::Or(l, r) => VisibilityConditionExpr::Or(
                Box::new(replace_expr(*l, pattern, replacement)),
                Box::new(replace_expr(*r, pattern, replacement)),
            ),
            _ => e,
        }
    }
}

/// The number of subtrees that [`replace_expr`] replaces.
pub open spec fn replace_count(
    e: VisibilityConditionExpr,
    pattern: VisibilityConditionExpr,
) -> nat
    decreases e,
{
    if e == pattern {
        1
    } else {
        match e {
            VisibilityConditionExpr::Not(c) => replace_count(*c, pattern),
            VisibilityConditionExpr::And(l, r) => replace_count(*l, pattern) + replace_count(
                *r,
                pattern,
            ),
            VisibilityConditionExpr::Or(l, r) => replace_count(*l, pattern) + replace_count(
                *r,
                pattern,
            ),
            _ => 0,
        }
    }
}

/// At most one match fits per node: the match count is bounded by the
/// expression's size.
pub proof fn lemma_replace_count_le_size(e: VisibilityConditionExpr, pattern: VisibilityConditionExpr)
    ensures
        replace_count(e, pattern) <= expr_size(e),
    decreases e,
{
    if e != pattern {
        match e {
            VisibilityConditionExpr::Not(c) => {
                lemma_replace_count_le_size(*c, pattern);
            },
            VisibilityConditionExpr::And(l, r) => {
                lemma_replace_count_le_size(*l, pattern);
                lemma_replace_count_le_size(*r, pattern);
            },
            VisibilityConditionExpr::Or(l, r) => {
                lemma_replace_count_le_size(*l, pattern);
                lemma_replace_count_le_size(*r, pattern);
            },
            _ => {},
        }
    }
}

/// Replaces, in a pre-order walk, every subtree of `e` equal to `pattern` by
/// `replacement`, returning the new expression and the number of matches.
pub fn replace_in_expr(
    e: &VisibilityConditionExpr,
    pattern: &VisibilityConditionExpr,
    replacement: &VisibilityConditionExpr,
) -> (r: (VisibilityConditionExpr, usize))
    requires
        replace_count(*e, *pattern) <= usize::MAX,
    ensures
        r.0 == replace_expr(*e, *pattern, *replacement),
        r.1 == replace_count(*e, *pattern),
    decreases *e,
{
    if expr_eq(e, pattern) {
        (replacement.clone(), 1)
    } else {
        match e {
            VisibilityConditionExpr::Not(c) => {
                let (nc, k) = replace_in_expr(c, pattern, replacement);
                (VisibilityConditionExpr::Not(Box::new(nc)), k)
            },
            VisibilityConditionExpr::And(l, r) => {
                let (nl, kl) = replace_in_expr(l, pattern, replacement);
                let (nr, kr) = replace_in_expr(r, pattern, replacement);
                (VisibilityConditionExpr::And(Box::new(nl), Box::new(nr)), kl + kr)
            },
            VisibilityConditionExpr::Or(l, r) => {
                let (nl, kl) = replace_in_expr(l, pattern, replacement);
                let (nr, kr) = replace_in_expr(r, pattern, replacement);
                (VisibilityConditionExpr::Or(Box::new(nl), Box::new(nr)), kl + kr)
            },
            _ => (e.clone(), 0),
        }
    }
}

/// The expression after replacing every attribute leaf whose type tag equals
/// `type_tag` by `replacement`.
pub open spec fn replace_type_expr(
    e: VisibilityConditionExpr,
    type_tag: u64,
    replacement: VisibilityConditionExpr,
) -> VisibilityConditionExpr
    decreases e,
{
    match e {
        VisibilityConditionExpr::Attr(a) => if a.type_tag == type_tag {
            replacement
        } else {
            e
        },
        VisibilityConditionExpr::Not(c) => VisibilityConditionExpr::Not(
            Box::new(replace_type_expr(*c, type_tag, replacement)),
        ),
        VisibilityConditionExpr::And(l, r) => VisibilityConditionExpr::And(
            Box::new(replace_type_expr(*l, type_tag, replacement)),
            Box::new(replace_type_expr(*r, type_tag, replacement)),
        ),
        VisibilityConditionExpr::Or(l, r) => VisibilityConditionExpr::Or(
            Box::new(replace_type_expr(*l, type_tag, replacement)),
            Box::new(replace_type_expr(*r, type_tag, replacement)),
        ),
        _ => e,
    }
}

/// The number of attribute leaves that [`replace_type_expr`] replaces.
pub open spec fn replace_type_count(e: VisibilityConditionExpr, type_tag: u64) -> nat
    decreases e,
{
    match e {
        VisibilityConditionExpr::Attr(a) => if a.type_tag == type_tag {
            1
        } else {
            0
        },
        VisibilityConditionExpr::Not(c) => replace_type_count(*c, type_tag),
        VisibilityConditionExpr::And(l, r) => replace_type_count(*l, type_tag)
            + replace_type_count(*r, type_tag),
        VisibilityConditionExpr::Or(l, r) => replace_type_count(*l, type_tag)
            + replace_type_count(*r, type_tag),
        _ => 0,
    }
}

/// The type-replacement count is bounded by the expression's size.
pub proof fn lemma_replace_type_count_le_size(e: VisibilityConditionExpr, type_tag: u64)
    ensures
        replace_type_count(e, type_tag) <= expr_size(e),
    decreases e,
{
    match e {
        VisibilityConditionExpr::Not(c) => {
            lemma_replace_type_count_le_size(*c, type_tag);
        },
        VisibilityConditionExpr::And(l, r) => {
            lemma_replace_type_count_le_size(*l, type_tag);
            lemma_replace_type_count_le_size(*r, type_tag);
        },
        VisibilityConditionExpr::Or(l, r) => {
            lemma_replace_type_count_le_size(*l, type_tag);
            lemma_replace_type_count_le_size(*r, type_tag);
        },
        _ => {},
    }
}

/// Replaces every attribute leaf of `e` whose type tag equals `type_tag` by
/// `replacement`, returning the new expression and the number of matches.
pub fn replace_type_in_expr(
    e: &VisibilityConditionExpr,
    type_tag: u64,
    replacement: &VisibilityConditionExpr,
) -> (r: (VisibilityConditionExpr, usize))
    requires
        replace_type_count(*e, type_tag) <= usize::MAX,
    ensures
        r.0 == replace_type_expr(*e, type_tag, *replacement),
        r.1 == replace_type_count(*e, type_tag),
    decreases *e,
{
    match e {
        VisibilityConditionExpr::Attr(a) => {
            if a.type_id() == type_tag {
                (replacement.clone(), 1)
            } else {
                (VisibilityConditionExpr::Attr(*a), 0)
            }
        },
        VisibilityConditionExpr::Not(c) => {
            let (nc, k) = replace_type_in_expr(c, type_tag, replacement);
            (VisibilityConditionExpr::Not(Box::new(nc)), k)
        },
        VisibilityConditionExpr::And(l, r) => {
            let (nl, kl) = replace_type_in_expr(l, type_tag, replacement);
            let (nr, kr) = replace_type_in_expr(r, type_tag, replacement);
            (VisibilityConditionExpr::And(Box::new(nl), Box::new(nr)), kl + kr)
        },
        VisibilityConditionExpr::Or(l, r) => {
            let (nl, kl) = replace_type_in_expr(l, type_tag, replacement);
            let (nr, kr) = replace_type_in_expr(r, type_tag, replacement);
            (VisibilityConditionExpr::Or(Box::new(nl), Box::new(nr)), kl + kr)
        },
        VisibilityConditionExpr::Empty => (VisibilityConditionExpr::Empty, 0),
    }
}

} // verus!
