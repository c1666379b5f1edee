//! Flattened visibility conditions.
//!
//! A built condition stores its expression in two forms: the expression tree
//! it was composed from, and a flattened arena of [`VisibilityConditionNode`]
//! where children are referenced by position instead of pointers and node 0
//! is the root. Evaluation and identity hashing run over the flat form;
//! composition and rewriting walk the tree.

use vstd::prelude::*;
use vstd::bytes::spec_u64_to_le_bytes;
use vstd::bytes::u64_to_le_bytes;
use crate::visibility_attribute::VisibilityAttribute;
use crate::visibility_attribute::VisibilityAttributeId;
use crate::visibility_condition_constructors::consolidate;
use crate::visibility_condition_constructors::consolidate_expr;
use crate::visibility_condition_constructors::expr_size;
use crate::visibility_condition_constructors::is_consolidated;
use crate::visibility_condition_constructors::lemma_consolidate_consolidated;
use crate::visibility_condition_constructors::lemma_replace_count_le_size;
use crate::visibility_condition_constructors::lemma_replace_type_count_le_size;
use crate::visibility_condition_constructors::replace_count;
use crate::visibility_condition_constructors::replace_expr;
use crate::visibility_condition_constructors::replace_in_expr;
use crate::visibility_condition_constructors::replace_type_count;
use crate::visibility_condition_constructors::replace_type_expr;
use crate::visibility_condition_constructors::replace_type_in_expr;
use crate::visibility_condition_constructors::sem;
use crate::visibility_condition_constructors::IntoVisibilityCondition;
use crate::visibility_condition_constructors::VisibilityConditionExpr;

verus! {

/// Id associated with a visibility condition.
///
/// This is used to differentiate visibility conditions within the attribute
/// engine's internal maps. The id is a 128-bit structural content hash with
/// 64 bits of collision resistance: distinct conditions receive distinct ids
/// with overwhelming probability, and equality of conditions is defined as
/// equality of their ids. This probabilistic identity is a deliberate
/// trade-off accepted in place of deep structural comparison.
#[derive(Copy, Clone, Debug, Eq, PartialEq, Hash, PartialOrd, Ord, Structural)]
pub struct VisibilityConditionId(pub u128);

/// A node within a flattened visibility condition tree.
///
/// Non-leaf nodes reference their children by position within the same flat
/// sequence: a `Not` node's child starts at the next position; an `And`/`Or`
/// node's left branch starts at the next position and its right branch at
/// the recorded index.
#[derive(Debug, Copy, Clone, Hash, PartialEq, Eq, Structural)]
pub enum VisibilityConditionNode {
    Empty,
    /// Attribute leaf.
    Attr(VisibilityAttributeId),
    /// Next node is the child.
    Not,
    /// Next node is the left branch. Records the node of the right branch.
    And(usize),
    /// Next node is the left branch. Records the node of the right branch.
    Or(usize),
}

impl Default for VisibilityConditionNode {
    fn default() -> (r: Self)
        ensures
            r == VisibilityConditionNode::Empty,
    {
        VisibilityConditionNode::Empty
    }
}

impl VisibilityConditionNode {
    /// Whether two nodes at the given positions within subslices of larger
    /// sequences are equivalent: same node type, with `And`/`Or` branch
    /// references equal relative to each subslice's root position.
    pub open spec fn spec_equivalent(self, self_ref: int, other: Self, other_ref: int) -> bool {
        match (self, other) {
            (VisibilityConditionNode::Empty, VisibilityConditionNode::Empty) => true,
            (VisibilityConditionNode::Attr(a), VisibilityConditionNode::Attr(b)) => a == b,
            (VisibilityConditionNode::Not, VisibilityConditionNode::Not) => true,
            (VisibilityConditionNode::And(b1), VisibilityConditionNode::And(b2)) => b1 - self_ref
                == b2 - other_ref,
            (VisibilityConditionNode::Or(b1), VisibilityConditionNode::Or(b2)) => b1 - self_ref
                == b2 - other_ref,
            _ => false,
        }
    }

    /// Returns true if two nodes that appear at the given positions within
    /// subslices of larger sequences are equivalent.
    ///
    /// Non-root nodes are equivalent if they are the same type and point to
    /// the same nodes relative to those subslices.
    pub fn equivalent(&self, self_ref: usize, other: &Self, other_ref: usize) -> (r: bool)
        ensures
            r == self.spec_equivalent(self_ref as int, *other, other_ref as int),
    {
        match (self, other) {
            (VisibilityConditionNode::Empty, VisibilityConditionNode::Empty) => true,
            (VisibilityConditionNode::Attr(a), VisibilityConditionNode::Attr(b)) => *a == *b,
            (VisibilityConditionNode::Not, VisibilityConditionNode::Not) => true,
            (VisibilityConditionNode::And(b1), VisibilityConditionNode::And(b2)) => {
                (*b1 as u128) + (other_ref as u128) == (*b2 as u128) + (self_ref as u128)
            },
            (VisibilityConditionNode::Or(b1), VisibilityConditionNode::Or(b2)) => {
                (*b1 as u128) + (other_ref as u128) == (*b2 as u128) + (self_ref as u128)
            },
            _ => false,
        }
    }
}

/// The flattening of an expression whose root sits at position `base` of the
/// surrounding sequence: a pre-order layout where `And`/`Or` nodes record
/// the absolute position of their right branch.
pub open spec fn flat(e: VisibilityConditionExpr, base: int) -> Seq<VisibilityConditionNode>
    decreases e,
{
    match e {
        VisibilityConditionExpr::Empty => seq![VisibilityConditionNode::Empty],
        VisibilityConditionExpr::Attr(a) => seq![VisibilityConditionNode::Attr(a)],
        VisibilityConditionExpr::Not(c) => seq![VisibilityConditionNode::Not] + flat(*c, base + 1),
        VisibilityConditionExpr::And(l, r) => seq![
            VisibilityConditionNode::And(((base + 1 + expr_size(*l)) as usize)),
        ] + flat(*l, base + 1) + flat(*r, base + 1 + expr_size(*l)),
        VisibilityConditionExpr::Or(l, r) => seq![
            VisibilityConditionNode::Or(((base + 1 + expr_size(*l)) as usize)),
        ] + flat(*l, base + 1) + flat(*r, base + 1 + expr_size(*l)),
    }
}

/// A flattening occupies exactly `expr_size` nodes.
pub proof fn lemma_flat_len(e: VisibilityConditionExpr, base: int)
    ensures
        flat(e, base).len() == expr_size(e),
    decreases e,
{
    match e {
        VisibilityConditionExpr::Empty => {},
        VisibilityConditionExpr::Attr(_) => {},
        VisibilityConditionExpr::Not(c) => {
            lemma_flat_len(*c, base + 1);
        },
        VisibilityConditionExpr::And(l, r) => {
            lemma_flat_len(*l, base + 1);
            lemma_flat_len(*r, base + 1 + expr_size(*l));
        },
        VisibilityConditionExpr::Or(l, r) => {
            lemma_flat_len(*l, base + 1);
            lemma_flat_len(*r, base + 1 + expr_size(*l));
        },
    }
}

/// Every expression occupies at least one node.
pub proof fn lemma_expr_size_pos(e: VisibilityConditionExpr)
    ensures
        expr_size(e) >= 1,
{
    match e {
        VisibilityConditionExpr::Empty => {},
        VisibilityConditionExpr::Attr(_) => {},
        VisibilityConditionExpr::Not(_) => {},
        VisibilityConditionExpr::And(_, _) => {},
        VisibilityConditionExpr::Or(_, _) => {},
    }
}

/// Consolidation never grows an expression.
pub proof fn lemma_consolidate_size(e: VisibilityConditionExpr)
    ensures
        expr_size(consolidate(e)) <= expr_size(e),
    decreases e,
{
    match e {
        VisibilityConditionExpr::Empty => {},
        VisibilityConditionExpr::Attr(_) => {},
        VisibilityConditionExpr::Not(c) => {
            lemma_consolidate_size(*c);
        },
        VisibilityConditionExpr::And(l, r) => {
            lemma_consolidate_size(*l);
            lemma_consolidate_size(*r);
            lemma_expr_size_pos(consolidate(*l));
            lemma_expr_size_pos(consolidate(*r));
        },
        VisibilityConditionExpr::Or(l, r) => {
            lemma_consolidate_size(*l);
            lemma_consolidate_size(*r);
            lemma_expr_size_pos(consolidate(*l));
            lemma_expr_size_pos(consolidate(*r));
        },
    }
}

/// Flattens `e` onto the end of `out`.
pub fn flatten_into(e: &VisibilityConditionExpr, out: &mut Vec<VisibilityConditionNode>)
    requires
        old(out)@.len() + expr_size(*e) <= usize::MAX,
    ensures
        final(out)@ == old(out)@ + flat(*e, old(out)@.len() as int),
    decreases *e,
{
    proof {
        lemma_flat_len(*e, old(out)@.len() as int);
    }
    match e {
        VisibilityConditionExpr::Empty => {
            out.push(VisibilityConditionNode::Empty);
            assert(out@ =~= old(out)@ + flat(*e, old(out)@.len() as int));
        },
        VisibilityConditionExpr::Attr(a) => {
            out.push(VisibilityConditionNode::Attr(*a));
            assert(out@ =~= old(out)@ + flat(*e, old(out)@.len() as int));
        },
        VisibilityConditionExpr::Not(c) => {
            out.push(VisibilityConditionNode::Not);
            flatten_into(c, out);
            assert(out@ =~= old(out)@ + flat(*e, old(out)@.len() as int));
        },
        VisibilityConditionExpr::And(l, r) => {
            let idx = out.len();
            proof {
                lemma_flat_len(**l, idx + 1);
                lemma_flat_len(**r, idx + 1 + expr_size(**l));
                lemma_expr_size_pos(**r);
            }
            out.push(VisibilityConditionNode::And(0));
            flatten_into(l, out);
            let right = out.len();
            out.set(idx, VisibilityConditionNode::And(right));
            flatten_into(r, out);
            assert(out@ =~= old(out)@ + flat(*e, old(out)@.len() as int));
        },
        VisibilityConditionExpr::Or(l, r) => {
            let idx = out.len();
            proof {
                lemma_flat_len(**l, idx + 1);
                lemma_flat_len(**r, idx + 1 + expr_size(**l));
                lemma_expr_size_pos(**r);
            }
            out.push(VisibilityConditionNode::Or(0));
            flatten_into(l, out);
            let right = out.len();
            out.set(idx, VisibilityConditionNode::Or(right));
            flatten_into(r, out);
            assert(out@ =~= old(out)@ + flat(*e, old(out)@.len() as int));
        },
    }
}

/// The attribute leaves of a node sequence, in order of appearance.
pub open spec fn attrs_of(nodes: Seq<VisibilityConditionNode>) -> Seq<VisibilityAttributeId>
    decreases nodes.len(),
{
    if nodes.len() == 0 {
        Seq::empty()
    } else {
        attrs_of(nodes.drop_last()) + (match nodes.last() {
            VisibilityConditionNode::Attr(a) => seq![a],
            _ => Seq::empty(),
        })
    }
}

/// The packed keys of the attributes a node sequence mentions.
pub open spec fn mentioned_keys(nodes: Seq<VisibilityConditionNode>) -> Set<u128> {
    Set::new(
        |key: u128|
            exists|i: int| 0 <= i < attrs_of(nodes).len() && attrs_of(nodes)[i].spec_key() == key,
    )
}

/// The attribute leaves of an expression, in left-to-right order.
pub open spec fn expr_attrs(e: VisibilityConditionExpr) -> Seq<VisibilityAttributeId>
    decreases e,
{
    match e {
        VisibilityConditionExpr::Empty => Seq::empty(),
        VisibilityConditionExpr::Attr(a) => seq![a],
        VisibilityConditionExpr::Not(c) => expr_attrs(*c),
        VisibilityConditionExpr::And(l, r) => expr_attrs(*l) + expr_attrs(*r),
        VisibilityConditionExpr::Or(l, r) => expr_attrs(*l) + expr_attrs(*r),
    }
}

/// Attribute extraction distributes over concatenation.
pub proof fn lemma_attrs_of_concat(s1: Seq<VisibilityConditionNode>, s2: Seq<VisibilityConditionNode>)
    ensures
        attrs_of(s1 + s2) == attrs_of(s1) + attrs_of(s2),
    decreases s2.len(),
{
    if s2.len() == 0 {
        assert(s1 + s2 =~= s1);
        assert(attrs_of(s1) + attrs_of(s2) =~= attrs_of(s1));
    } else {
        lemma_attrs_of_concat(s1, s2.drop_last());
        assert((s1 + s2).drop_last() =~= s1 + s2.drop_last());
        assert((s1 + s2).last() == s2.last());
        assert(attrs_of(s1 + s2) =~= attrs_of(s1) + attrs_of(s2));
    }
}

/// The attribute leaves of a flattening are the attribute leaves of the
/// expression, in the same order.
pub proof fn lemma_flat_attrs(e: VisibilityConditionExpr, base: int)
    ensures
        attrs_of(flat(e, base)) == expr_attrs(e),
    decreases e,
{
    match e {
        VisibilityConditionExpr::Empty => {
            let s = flat(e, base);
            assert(s.len() == 1);
            assert(s.drop_last() =~= Seq::<VisibilityConditionNode>::empty());
            assert(attrs_of(Seq::<VisibilityConditionNode>::empty()) == Seq::<
                VisibilityAttributeId,
            >::empty());
            assert(s.last() == VisibilityConditionNode::Empty);
            assert(attrs_of(s) =~= expr_attrs(e));
        },
        VisibilityConditionExpr::Attr(a) => {
            let s = flat(e, base);
            assert(s.len() == 1);
            assert(s.drop_last() =~= Seq::<VisibilityConditionNode>::empty());
            assert(attrs_of(Seq::<VisibilityConditionNode>::empty()) == Seq::<
                VisibilityAttributeId,
            >::empty());
            assert(s.last() == VisibilityConditionNode::Attr(a));
            assert(attrs_of(s) =~= expr_attrs(e));
        },
        VisibilityConditionExpr::Not(c) => {
            lemma_flat_attrs(*c, base + 1);
            lemma_attrs_of_concat(seq![VisibilityConditionNode::Not], flat(*c, base + 1));
            assert(attrs_of(seq![VisibilityConditionNode::Not]) =~= Seq::<
                VisibilityAttributeId,
            >::empty()) by {
                assert(seq![VisibilityConditionNode::Not].drop_last() =~= Seq::<
                    VisibilityConditionNode,
                >::empty());
                assert(attrs_of(Seq::<VisibilityConditionNode>::empty()) == Seq::<
                    VisibilityAttributeId,
                >::empty());
            }
            assert(attrs_of(flat(e, base)) =~= expr_attrs(e));
        },
        VisibilityConditionExpr::And(l, r) => {
            let hd = seq![
                VisibilityConditionNode::And(((base + 1 + expr_size(*l)) as usize)),
            ];
            lemma_flat_attrs(*l, base + 1);
            lemma_flat_attrs(*r, base + 1 + expr_size(*l));
            lemma_attrs_of_concat(hd, flat(*l, base + 1));
            lemma_attrs_of_concat(hd + flat(*l, base + 1), flat(*r, base + 1 + expr_size(*l)));
            assert(attrs_of(hd) =~= Seq::<VisibilityAttributeId>::empty()) by {
                assert(hd.drop_last() =~= Seq::<VisibilityConditionNode>::empty());
                assert(attrs_of(Seq::<VisibilityConditionNode>::empty()) == Seq::<
                    VisibilityAttributeId,
                >::empty());
            }
            assert(attrs_of(flat(e, base)) =~= expr_attrs(e));
        },
        VisibilityConditionExpr::Or(l, r) => {
            let hd = seq![
                VisibilityConditionNode::Or(((base + 1 + expr_size(*l)) as usize)),
            ];
            lemma_flat_attrs(*l, base + 1);
            lemma_flat_attrs(*r, base + 1 + expr_size(*l));
            lemma_attrs_of_concat(hd, flat(*l, base + 1));
            lemma_attrs_of_concat(hd + flat(*l, base + 1), flat(*r, base + 1 + expr_size(*l)));
            assert(attrs_of(hd) =~= Seq::<VisibilityAttributeId>::empty()) by {
                assert(hd.drop_last() =~= Seq::<VisibilityConditionNode>::empty());
                assert(attrs_of(Seq::<VisibilityConditionNode>::empty()) == Seq::<
                    VisibilityAttributeId,
                >::empty());
            }
            assert(attrs_of(flat(e, base)) =~= expr_attrs(e));
        },
    }
}

/// The semantics of an expression depends only on the predicate's values at
/// the expression's attribute leaves.
pub proof fn lemma_sem_agrees(
    e: VisibilityConditionExpr,
    p1: spec_fn(VisibilityAttributeId) -> bool,
    p2: spec_fn(VisibilityAttributeId) -> bool,
)
    requires
        forall|a: VisibilityAttributeId| #[trigger]
            expr_attrs(e).contains(a) ==> p1(a) == p2(a),
    ensures
        sem(e, p1) == sem(e, p2),
    decreases e,
{
    broadcast use vstd::seq_lib::group_seq_properties;

    match e {
        VisibilityConditionExpr::Empty => {},
        VisibilityConditionExpr::Attr(a) => {
            assert(expr_attrs(e).contains(a)) by {
                assert(expr_attrs(e)[0] == a);
            }
        },
        VisibilityConditionExpr::Not(c) => {
            assert forall|a: VisibilityAttributeId| #[trigger]
                expr_attrs(*c).contains(a) implies p1(a) == p2(a) by {
                assert(expr_attrs(e).contains(a));
            }
            lemma_sem_agrees(*c, p1, p2);
        },
        VisibilityConditionExpr::And(l, r) => {
            assert forall|a: VisibilityAttributeId| #[trigger]
                expr_attrs(*l).contains(a) implies p1(a) == p2(a) by {
                assert(expr_attrs(e).contains(a));
            }
            assert forall|a: VisibilityAttributeId| #[trigger]
                expr_attrs(*r).contains(a) implies p1(a) == p2(a) by {
                assert(expr_attrs(e).contains(a));
            }
            lemma_sem_agrees(*l, p1, p2);
            lemma_sem_agrees(*r, p1, p2);
        },
        VisibilityConditionExpr::Or(l, r) => {
            assert forall|a: VisibilityAttributeId| #[trigger]
                expr_attrs(*l).contains(a) implies p1(a) == p2(a) by {
                assert(expr_attrs(e).contains(a));
            }
            assert forall|a: VisibilityAttributeId| #[trigger]
                expr_attrs(*r).contains(a) implies p1(a) == p2(a) by {
                assert(expr_attrs(e).contains(a));
            }
            lemma_sem_agrees(*l, p1, p2);
            lemma_sem_agrees(*r, p1, p2);
        },
    }
}

/// The head node of a flattening identifies the expression's root variant.
pub proof fn lemma_flat_head(e: VisibilityConditionExpr, base: int)
    ensures
        e is Empty ==> flat(e, base)[0] == VisibilityConditionNode::Empty,
        e matches VisibilityConditionExpr::Attr(a) ==> flat(e, base)[0]
            == VisibilityConditionNode::Attr(a),
        e is Not ==> flat(e, base)[0] == VisibilityConditionNode::Not,
        e matches VisibilityConditionExpr::And(l, _) ==> flat(e, base)[0]
            == VisibilityConditionNode::And(((base + 1 + expr_size(*l)) as usize)),
        e matches VisibilityConditionExpr::Or(l, _) ==> flat(e, base)[0]
            == VisibilityConditionNode::Or(((base + 1 + expr_size(*l)) as usize)),
{
    match e {
        VisibilityConditionExpr::Empty => {},
        VisibilityConditionExpr::Attr(_) => {},
        VisibilityConditionExpr::Not(c) => {
            lemma_flat_len(*c, base + 1);
        },
        VisibilityConditionExpr::And(l, r) => {
            lemma_flat_len(*l, base + 1);
        },
        VisibilityConditionExpr::Or(l, r) => {
            lemma_flat_len(*l, base + 1);
        },
    }
}

/// When a window of `s` holds the flattening of a composite expression, the
/// corresponding sub-windows hold the flattenings of its branches.
pub proof fn lemma_child_windows(
    s: Seq<VisibilityConditionNode>,
    cn: int,
    e: VisibilityConditionExpr,
)
    requires
        0 <= cn,
        cn + expr_size(e) <= s.len(),
        s.subrange(cn, cn + expr_size(e)) == flat(e, cn),
    ensures
        e matches VisibilityConditionExpr::Not(c) ==> s.subrange(cn + 1, cn + 1 + expr_size(*c))
            == flat(*c, cn + 1),
        e matches VisibilityConditionExpr::And(l, r) ==> {
            &&& s.subrange(cn + 1, cn + 1 + expr_size(*l)) == flat(*l, cn + 1)
            &&& s.subrange(cn + 1 + expr_size(*l), cn + expr_size(e)) == flat(
                *r,
                cn + 1 + expr_size(*l),
            )
        },
        e matches VisibilityConditionExpr::Or(l, r) ==> {
            &&& s.subrange(cn + 1, cn + 1 + expr_size(*l)) == flat(*l, cn + 1)
            &&& s.subrange(cn + 1 + expr_size(*l), cn + expr_size(e)) == flat(
                *r,
                cn + 1 + expr_size(*l),
            )
        },
{
    lemma_flat_len(e, cn);
    match e {
        VisibilityConditionExpr::Empty => {},
        VisibilityConditionExpr::Attr(_) => {},
        VisibilityConditionExpr::Not(c) => {
            lemma_flat_len(*c, cn + 1);
            assert(s.subrange(cn + 1, cn + 1 + expr_size(*c)) =~= flat(*c, cn + 1)) by {
                assert forall|i: int| 0 <= i < expr_size(*c) implies s[cn + 1 + i] == #[trigger] flat(
                    *c,
                    cn + 1,
                )[i] by {
                    assert(s.subrange(cn, cn + expr_size(e))[i + 1] == flat(e, cn)[i + 1]);
                }
            }
        },
        VisibilityConditionExpr::And(l, r) => {
            lemma_flat_len(*l, cn + 1);
            lemma_flat_len(*r, cn + 1 + expr_size(*l));
            assert(s.subrange(cn + 1, cn + 1 + expr_size(*l)) =~= flat(*l, cn + 1)) by {
                assert forall|i: int| 0 <= i < expr_size(*l) implies s[cn + 1 + i] == #[trigger] flat(
                    *l,
                    cn + 1,
                )[i] by {
                    assert(s.subrange(cn, cn + expr_size(e))[i + 1] == flat(e, cn)[i + 1]);
                }
            }
            assert(s.subrange(cn + 1 + expr_size(*l), cn + expr_size(e)) =~= flat(
                *r,
                cn + 1 + expr_size(*l),
            )) by {
                assert forall|i: int| 0 <= i < expr_size(*r) implies s[cn + 1 + expr_size(*l) + i]
                    == #[trigger] flat(*r, cn + 1 + expr_size(*l))[i] by {
                    assert(s.subrange(cn, cn + expr_size(e))[1 + expr_size(*l) + i] == flat(
                        e,
                        cn,
                    )[1 + expr_size(*l) + i]);
                }
            }
        },
        VisibilityConditionExpr::Or(l, r) => {
            lemma_flat_len(*l, cn + 1);
            lemma_flat_len(*r, cn + 1 + expr_size(*l));
            assert(s.subrange(cn + 1, cn + 1 + expr_size(*l)) =~= flat(*l, cn + 1)) by {
                assert forall|i: int| 0 <= i < expr_size(*l) implies s[cn + 1 + i] == #[trigger] flat(
                    *l,
                    cn + 1,
                )[i] by {
                    assert(s.subrange(cn, cn + expr_size(e))[i + 1] == flat(e, cn)[i + 1]);
                }
            }
            assert(s.subrange(cn + 1 + expr_size(*l), cn + expr_size(e)) =~= flat(
                *r,
                cn + 1 + expr_size(*l),
            )) by {
                assert forall|i: int| 0 <= i < expr_size(*r) implies s[cn + 1 + expr_size(*l) + i]
                    == #[trigger] flat(*r, cn + 1 + expr_size(*l))[i] by {
                    assert(s.subrange(cn, cn + expr_size(e))[1 + expr_size(*l) + i] == flat(
                        e,
                        cn,
                    )[1 + expr_size(*l) + i]);
                }
            }
        },
    }
}

/// Whether the pure predicate `p` describes the inspector `f`: every value
/// `f` can return for an attribute equals `p` at that attribute.
pub open spec fn inspector_models<F: Fn(VisibilityAttributeId) -> bool>(
    f: F,
    p: spec_fn(VisibilityAttributeId) -> bool,
) -> bool {
    forall|a: VisibilityAttributeId, b: bool| #[trigger] call_ensures(f, (a,), b) ==> b == p(a)
}

/// Evaluates a condition branch with the given root node inspector.
///
/// The branch at `current_node` must be the flattening of the expression
/// `e`; the result is the classical boolean semantics of `e` under any pure
/// predicate the inspector implements.
pub fn evaluate<F: Fn(VisibilityAttributeId) -> bool>(
    inspector: &F,
    condition: &Vec<VisibilityConditionNode>,
    current_node: usize,
    Ghost(e): Ghost<VisibilityConditionExpr>,
) -> (r: bool)
    requires
        forall|a: VisibilityAttributeId| #[trigger] call_requires(*inspector, (a,)),
        current_node + expr_size(e) <= condition@.len(),
        condition@.subrange(current_node as int, current_node + expr_size(e)) == flat(
            e,
            current_node as int,
        ),
    ensures
        forall|p: spec_fn(VisibilityAttributeId) -> bool|
            #[trigger] inspector_models(*inspector, p) ==> r == sem(e, p),
    decreases e,
{
    let n = condition.len();
    proof {
        lemma_flat_len(e, current_node as int);
        lemma_expr_size_pos(e);
        lemma_flat_head(e, current_node as int);
        lemma_child_windows(condition@, current_node as int, e);
        assert(condition@[current_node as int] == flat(e, current_node as int)[0]) by {
            assert(condition@.subrange(current_node as int, current_node + expr_size(e))[0]
                == flat(e, current_node as int)[0]);
        }
    }
    match condition[current_node] {
        VisibilityConditionNode::Empty => {
            proof {
                assert(e is Empty);
            }
            true
        },
        VisibilityConditionNode::Attr(attribute) => {
            proof {
                assert(e == VisibilityConditionExpr::Attr(attribute));
            }
            let res = (inspector)(attribute);
            proof {
                assert forall|p: spec_fn(VisibilityAttributeId) -> bool|
                    #[trigger] inspector_models(*inspector, p) implies res == sem(e, p) by {
                    assert(call_ensures(*inspector, (attribute,), res));
                }
            }
            res
        },
        VisibilityConditionNode::Not => {
            proof {
                assert(e is Not);
            }
            let ghost c = *e->Not_0;
            let child = evaluate(inspector, condition, current_node + 1, Ghost(c));
            let res = !child;
            proof {
                assert forall|p: spec_fn(VisibilityAttributeId) -> bool|
                    #[trigger] inspector_models(*inspector, p) implies res == sem(e, p) by {
                    assert(child == sem(c, p));
                }
            }
            res
        },
        VisibilityConditionNode::And(b) => {
            proof {
                assert(e is And);
            }
            let ghost l = *e->And_0;
            let ghost rr = *e->And_1;
            proof {
                lemma_expr_size_pos(l);
                lemma_expr_size_pos(rr);
                assert(b == current_node + 1 + expr_size(l));
            }
            let left = evaluate(inspector, condition, current_node + 1, Ghost(l));
            let res = if left {
                evaluate(inspector, condition, b, Ghost(rr))
            } else {
                false
            };
            proof {
                assert forall|p: spec_fn(VisibilityAttributeId) -> bool|
                    #[trigger] inspector_models(*inspector, p) implies res == sem(e, p) by {
                    assert(left == sem(l, p));
                }
            }
            res
        },
        VisibilityConditionNode::Or(b) => {
            proof {
                assert(e is Or);
            }
            let ghost l = *e->Or_0;
            let ghost rr = *e->Or_1;
            proof {
                lemma_expr_size_pos(l);
                lemma_expr_size_pos(rr);
                assert(b == current_node + 1 + expr_size(l));
            }
            let left = evaluate(inspector, condition, current_node + 1, Ghost(l));
            let res = if left {
                true
            } else {
                evaluate(inspector, condition, b, Ghost(rr))
            };
            proof {
                assert forall|p: spec_fn(VisibilityAttributeId) -> bool|
                    #[trigger] inspector_models(*inspector, p) implies res == sem(e, p) by {
                    assert(left == sem(l, p));
                }
            }
            res
        },
    }
}

/// The canonical byte encoding of one node: a tag byte followed by the
/// node's fields as little-endian 64-bit words.
pub open spec fn node_bytes(n: VisibilityConditionNode) -> Seq<u8> {
    match n {
        VisibilityConditionNode::Empty => seq![0u8],
        VisibilityConditionNode::Attr(a) => seq![1u8] + spec_u64_to_le_bytes(a.type_tag)
            + spec_u64_to_le_bytes(a.inner),
        VisibilityConditionNode::Not => seq![2u8],
        VisibilityConditionNode::And(b) => seq![3u8] + spec_u64_to_le_bytes(b as u64),
        VisibilityConditionNode::Or(b) => seq![4u8] + spec_u64_to_le_bytes(b as u64),
    }
}

/// The canonical byte encoding of a node sequence.
pub open spec fn nodes_bytes(nodes: Seq<VisibilityConditionNode>) -> Seq<u8>
    decreases nodes.len(),
{
    if nodes.len() == 0 {
        Seq::empty()
    } else {
        nodes_bytes(nodes.drop_last()) + node_bytes(nodes.last())
    }
}

/// The 128-bit digest that SipHasher13 (keyed with zeros) assigns to a byte
/// stream. The digest is a function of the bytes alone.
pub uninterp spec fn sip13_of(bytes: Seq<u8>) -> u128;

/// Relies on siphasher's `SipHasher13` with both keys fixed to zero: the
/// returned 128-bit digest depends on the input byte stream alone.
#[verifier::external_body]
fn sip13_hash(bytes: &Vec<u8>) -> (r: u128)
    ensures
        r == sip13_of(bytes@),
{
    let mut hasher = siphasher::sip128::SipHasher13::new();
    std::hash::Hasher::write(&mut hasher, bytes.as_slice());
    siphasher::sip128::Hasher128::finish128(&hasher).as_u128()
}

/// The structural content hash of a node sequence: the SipHasher13 digest
/// of its canonical byte encoding.
pub open spec fn spec_condition_id(nodes: Seq<VisibilityConditionNode>) -> u128 {
    sip13_of(nodes_bytes(nodes))
}

/// The condition id that building and consolidating an expression yields.
pub open spec fn spec_expr_condition_id(e: VisibilityConditionExpr) -> u128 {
    spec_condition_id(flat(consolidate(e), 0))
}

/// Appends the little-endian bytes of `x` to `out`.
fn push_u64(out: &mut Vec<u8>, x: u64)
    ensures
        final(out)@ == old(out)@ + spec_u64_to_le_bytes(x),
{
    let mut b = u64_to_le_bytes(x);
    out.append(&mut b);
}

/// Produces the canonical byte encoding of a node sequence.
fn encode_nodes(nodes: &Vec<VisibilityConditionNode>) -> (r: Vec<u8>)
    ensures
        r@ == nodes_bytes(nodes@),
{
    let mut out: Vec<u8> = Vec::new();
    let n = nodes.len();
    let mut i: usize = 0;
    while i < n
        invariant
            i <= n,
            n == nodes@.len(),
            out@ == nodes_bytes(nodes@.take(i as int)),
        decreases n - i,
    {
        match nodes[i] {
            VisibilityConditionNode::Empty => {
                out.push(0u8);
            },
            VisibilityConditionNode::Attr(a) => {
                out.push(1u8);
                push_u64(&mut out, a.type_id());
                push_u64(&mut out, a.inner_id());
            },
            VisibilityConditionNode::Not => {
                out.push(2u8);
            },
            VisibilityConditionNode::And(b) => {
                out.push(3u8);
                push_u64(&mut out, b as u64);
            },
            VisibilityConditionNode::Or(b) => {
                out.push(4u8);
                push_u64(&mut out, b as u64);
            },
        }
        proof {
            assert(nodes@.take(i + 1).drop_last() =~= nodes@.take(i as int));
            assert(nodes@.take(i + 1).last() == nodes@[i as int]);
            assert(out@ =~= nodes_bytes(nodes@.take(i + 1)));
        }
        i += 1;
    }
    proof {
        assert(nodes@.take(n as int) =~= nodes@);
    }
    out
}

/// Copies a node sequence.
fn copy_nodes(v: &Vec<VisibilityConditionNode>) -> (r: Vec<VisibilityConditionNode>)
    ensures
        r@ == v@,
{
    let mut out: Vec<VisibilityConditionNode> = Vec::new();
    let n = v.len();
    let mut i: usize = 0;
    while i < n
        invariant
            i <= n,
            n == v@.len(),
            out@ == v@.take(i as int),
        decreases n - i,
    {
        out.push(v[i]);
        proof {
            assert(v@.take(i + 1) =~= v@.take(i as int).push(v@[i as int]));
        }
        i += 1;
    }
    proof {
        assert(v@.take(n as int) =~= v@);
    }
    out
}

/// The head of the flattening of a non-`Empty` expression is not the
/// `Empty` node.
pub proof fn lemma_flat_head_nonempty(e: VisibilityConditionExpr, base: int)
    requires
        !(e is Empty),
    ensures
        flat(e, base)[0] != VisibilityConditionNode::Empty,
{
    lemma_flat_head(e, base);
    match e {
        VisibilityConditionExpr::Empty => {},
        VisibilityConditionExpr::Attr(_) => {},
        VisibilityConditionExpr::Not(_) => {},
        VisibilityConditionExpr::And(_, _) => {},
        VisibilityConditionExpr::Or(_, _) => {},
    }
}

/// A type-erased visibility condition.
///
/// Holds the flattened, consolidated node arena alongside the consolidated
/// expression it flattens. Note that an empty condition (a single `Empty`
/// node) always evaluates to `true`: it is the universally-true predicate,
/// distinct from "no condition attached", which the host treats as "visible
/// to no one".
///
/// See also [`Visibility`].
#[derive(Debug)]
pub struct VisibilityCondition {
    /// The flattened condition tree; node 0 is the root.
    pub nodes: Vec<VisibilityConditionNode>,
    /// The consolidated expression that `nodes` flattens.
    pub expr: VisibilityConditionExpr,
}

impl VisibilityCondition {
    /// Well-formedness: the expression is consolidated and the node arena
    /// is its flattening.
    pub open spec fn wf(self) -> bool {
        &&& is_consolidated(self.expr)
        &&& self.nodes@ == flat(self.expr, 0)
    }

    /// Makes a new condition with one empty node.
    pub fn empty() -> (r: Self)
        ensures
            r.wf(),
            r.expr == VisibilityConditionExpr::Empty,
    {
        let mut nodes: Vec<VisibilityConditionNode> = Vec::new();
        nodes.push(VisibilityConditionNode::Empty);
        proof {
            assert(nodes@ =~= flat(VisibilityConditionExpr::Empty, 0));
        }
        VisibilityCondition { nodes, expr: VisibilityConditionExpr::Empty }
    }

    /// Makes a new condition with the given condition constructor.
    ///
    /// The final condition is consolidated: empty nodes are removed and
    /// expressions simplified.
    pub fn new<C: IntoVisibilityCondition>(condition: C) -> (r: Self)
        requires
            expr_size(condition.as_expr()) <= usize::MAX,
        ensures
            r.wf(),
            r.expr == consolidate(condition.as_expr()),
    {
        let e = condition.build();
        let ce = consolidate_expr(e);
        proof {
            lemma_consolidate_size(e);
            lemma_consolidate_consolidated(e);
        }
        let mut nodes: Vec<VisibilityConditionNode> = Vec::new();
        flatten_into(&ce, &mut nodes);
        VisibilityCondition { nodes, expr: ce }
    }

    /// Gets the condition id: a structural content hash of the node arena.
    ///
    /// Conditions built from equal expressions receive equal ids; distinct
    /// conditions receive distinct ids with overwhelming probability.
    pub fn condition_id(&self) -> (r: VisibilityConditionId)
        ensures
            r.0 == spec_condition_id(self.nodes@),
    {
        let bytes = encode_nodes(&self.nodes);
        VisibilityConditionId(sip13_hash(&bytes))
    }

    /// Lists the attributes referenced in the condition tree, in
    /// left-to-right traversal order, duplicates included.
    pub fn iter_attributes(&self) -> (r: Vec<VisibilityAttributeId>)
        ensures
            r@ == attrs_of(self.nodes@),
    {
        let mut out: Vec<VisibilityAttributeId> = Vec::new();
        let n = self.nodes.len();
        let mut i: usize = 0;
        while i < n
            invariant
                i <= n,
                n == self.nodes@.len(),
                out@ == attrs_of(self.nodes@.take(i as int)),
            decreases n - i,
        {
            match self.nodes[i] {
                VisibilityConditionNode::Attr(a) => {
                    out.push(a);
                },
                _ => {},
            }
            proof {
                assert(self.nodes@.take(i + 1).drop_last() =~= self.nodes@.take(i as int));
                assert(self.nodes@.take(i + 1).last() == self.nodes@[i as int]);
                assert(out@ =~= attrs_of(self.nodes@.take(i + 1)));
            }
            i += 1;
        }
        proof {
            assert(self.nodes@.take(n as int) =~= self.nodes@);
        }
        out
    }

    /// Accesses the inner condition tree as a sequence of nodes.
    pub fn as_slice(&self) -> (r: &[VisibilityConditionNode])
        ensures
            r@ == self.nodes@,
    {
        self.nodes.as_slice()
    }

    /// Checks if the current condition is empty.
    ///
    /// Note that empty conditions always evaluate to `true`.
    pub fn is_empty(&self) -> (r: bool)
        requires
            self.wf(),
        ensures
            r == (self.expr is Empty),
    {
        proof {
            lemma_flat_len(self.expr, 0);
            lemma_expr_size_pos(self.expr);
            if !(self.expr is Empty) {
                lemma_flat_head_nonempty(self.expr, 0);
            }
        }
        if self.nodes.len() == 1 {
            matches!(self.nodes[0], VisibilityConditionNode::Empty)
        } else {
            false
        }
    }

    /// Evaluates the condition tree with an attribute evaluator.
    ///
    /// The evaluator should check if a given attribute is known; modifiers
    /// (not/and/or) are folded automatically. Returns `true` for empty
    /// conditions. The result is the classical boolean semantics of the
    /// condition under any pure predicate the evaluator implements.
    pub fn evaluate<F: Fn(VisibilityAttributeId) -> bool>(&self, evaluator: F) -> (r: bool)
        requires
            self.wf(),
            forall|a: VisibilityAttributeId| #[trigger] call_requires(evaluator, (a,)),
        ensures
            forall|p: spec_fn(VisibilityAttributeId) -> bool|
                #[trigger] inspector_models(evaluator, p) ==> r == sem(self.expr, p),
    {
        proof {
            lemma_flat_len(self.expr, 0);
            assert(self.nodes@.subrange(0, expr_size(self.expr) as int) =~= flat(self.expr, 0));
        }
        evaluate(&evaluator, &self.nodes, 0, Ghost(self.expr))
    }

    /// Extends self with an AND relationship with another visibility
    /// condition. The final condition is consolidated.
    pub fn and<C: IntoVisibilityCondition>(&mut self, other: C)
        requires
            old(self).wf(),
            1 + expr_size(old(self).expr) + expr_size(other.as_expr()) <= usize::MAX,
        ensures
            final(self).wf(),
            final(self).expr == consolidate(
                VisibilityConditionExpr::And(
                    Box::new(old(self).expr),
                    Box::new(other.as_expr()),
                ),
            ),
    {
        let e = VisibilityConditionExpr::And(
            Box::new(self.expr.clone()),
            Box::new(other.build()),
        );
        let ce = consolidate_expr(e);
        proof {
            lemma_consolidate_size(e);
            lemma_consolidate_consolidated(e);
        }
        let mut nodes: Vec<VisibilityConditionNode> = Vec::new();
        flatten_into(&ce, &mut nodes);
        self.nodes = nodes;
        self.expr = ce;
    }

    /// Extends self with an OR relationship with another visibility
    /// condition. The final condition is consolidated.
    pub fn or<C: IntoVisibilityCondition>(&mut self, other: C)
        requires
            old(self).wf(),
            1 + expr_size(old(self).expr) + expr_size(other.as_expr()) <= usize::MAX,
        ensures
            final(self).wf(),
            final(self).expr == consolidate(
                VisibilityConditionExpr::Or(
                    Box::new(old(self).expr),
                    Box::new(other.as_expr()),
                ),
            ),
    {
        let e = VisibilityConditionExpr::Or(
            Box::new(self.expr.clone()),
            Box::new(other.build()),
        );
        let ce = consolidate_expr(e);
        proof {
            lemma_consolidate_size(e);
            lemma_consolidate_consolidated(e);
        }
        let mut nodes: Vec<VisibilityConditionNode> = Vec::new();
        flatten_into(&ce, &mut nodes);
        self.nodes = nodes;
        self.expr = ce;
    }

    /// Replaces instances of a pattern in the current visibility condition
    /// with a new condition branch, scanning subtrees in a pre-order walk
    /// and not descending into matched or replaced regions.
    ///
    /// The final condition is consolidated. Returns the number of pattern
    /// instances replaced. An empty pattern performs no substitution and
    /// returns 0.
    pub fn replace<P: IntoVisibilityCondition, R: IntoVisibilityCondition>(
        &mut self,
        pattern: P,
        replacement: R,
    ) -> (count: usize)
        requires
            old(self).wf(),
            expr_size(
                replace_expr(
                    old(self).expr,
                    consolidate(pattern.as_expr()),
                    consolidate(replacement.as_expr()),
                ),
            ) <= usize::MAX,
        ensures
            final(self).wf(),
            consolidate(pattern.as_expr()) is Empty ==> {
                &&& count == 0
                &&& final(self).expr == old(self).expr
                &&& final(self).nodes@ == old(self).nodes@
            },
            !(consolidate(pattern.as_expr()) is Empty) ==> {
                &&& count == replace_count(old(self).expr, consolidate(pattern.as_expr()))
                &&& final(self).expr == consolidate(
                    replace_expr(
                        old(self).expr,
                        consolidate(pattern.as_expr()),
                        consolidate(replacement.as_expr()),
                    ),
                )
            },
    {
        let pe = consolidate_expr(pattern.build());
        proof {
            lemma_consolidate_consolidated(pattern.as_expr());
        }
        if matches!(pe, VisibilityConditionExpr::Empty) {
            return 0;
        }
        let re = consolidate_expr(replacement.build());
        let n = self.nodes.len();
        proof {
            lemma_flat_len(old(self).expr, 0);
            lemma_replace_count_le_size(old(self).expr, consolidate(pattern.as_expr()));
        }
        let (ne, count) = replace_in_expr(&self.expr, &pe, &re);
        let ce = consolidate_expr(ne);
        proof {
            lemma_consolidate_size(ne);
            lemma_consolidate_consolidated(ne);
        }
        let mut nodes: Vec<VisibilityConditionNode> = Vec::new();
        flatten_into(&ce, &mut nodes);
        self.nodes = nodes;
        self.expr = ce;
        count
    }

    /// Replaces attribute nodes of a certain type in the current visibility
    /// condition with a new condition branch.
    ///
    /// This is a type-only search and replace: attributes of the same type
    /// but different inner ids are all replaced. For replacement that
    /// includes inner-id checks, use [`Self::replace`].
    ///
    /// The final condition is consolidated. Returns the number of attribute
    /// nodes replaced.
    pub fn replace_type<T: VisibilityAttribute, R: IntoVisibilityCondition>(
        &mut self,
        replacement: R,
    ) -> (count: usize)
        requires
            old(self).wf(),
            expr_size(
                replace_type_expr(
                    old(self).expr,
                    T::spec_type_tag(),
                    consolidate(replacement.as_expr()),
                ),
            ) <= usize::MAX,
        ensures
            final(self).wf(),
            count == replace_type_count(old(self).expr, T::spec_type_tag()),
            final(self).expr == consolidate(
                replace_type_expr(
                    old(self).expr,
                    T::spec_type_tag(),
                    consolidate(replacement.as_expr()),
                ),
            ),
    {
        let re = consolidate_expr(replacement.build());
        let tag = T::type_tag();
        let n = self.nodes.len();
        proof {
            lemma_flat_len(old(self).expr, 0);
            lemma_replace_type_count_le_size(old(self).expr, T::spec_type_tag());
        }
        let (ne, count) = replace_type_in_expr(&self.expr, tag, &re);
        let ce = consolidate_expr(ne);
        proof {
            lemma_consolidate_size(ne);
            lemma_consolidate_consolidated(ne);
        }
        let mut nodes: Vec<VisibilityConditionNode> = Vec::new();
        flatten_into(&ce, &mut nodes);
        self.nodes = nodes;
        self.expr = ce;
        count
    }

    /// Removes instances of a pattern in the current visibility condition:
    /// each match is replaced by the universally-true predicate and the
    /// result consolidated.
    ///
    /// Returns the number of pattern instances removed. An empty pattern
    /// performs no removal and returns 0.
    pub fn remove<P: IntoVisibilityCondition>(&mut self, pattern: P) -> (count: usize)
        requires
            old(self).wf(),
        ensures
            final(self).wf(),
            consolidate(pattern.as_expr()) is Empty ==> {
                &&& count == 0
                &&& final(self).expr == old(self).expr
            },
            !(consolidate(pattern.as_expr()) is Empty) ==> {
                &&& count == replace_count(old(self).expr, consolidate(pattern.as_expr()))
                &&& final(self).expr == consolidate(
                    replace_expr(
                        old(self).expr,
                        consolidate(pattern.as_expr()),
                        VisibilityConditionExpr::Empty,
                    ),
                )
            },
    {
        let n = self.nodes.len();
        proof {
            lemma_flat_len(old(self).expr, 0);
            lemma_replace_small_size(
                old(self).expr,
                consolidate(pattern.as_expr()),
                VisibilityConditionExpr::Empty,
            );
        }
        self.replace(pattern, crate::visibility_condition_constructors::empty())
    }

    /// Removes attribute nodes of a certain type in the current visibility
    /// condition: each is replaced by the universally-true predicate and
    /// the result consolidated.
    ///
    /// This is a type-only search and remove: attributes of the same type
    /// but different inner ids are all removed. Returns the number of
    /// attribute nodes removed.
    pub fn remove_type<T: VisibilityAttribute>(&mut self) -> (count: usize)
        requires
            old(self).wf(),
        ensures
            final(self).wf(),
            count == replace_type_count(old(self).expr, T::spec_type_tag()),
            final(self).expr == consolidate(
                replace_type_expr(
                    old(self).expr,
                    T::spec_type_tag(),
                    VisibilityConditionExpr::Empty,
                ),
            ),
    {
        let n = self.nodes.len();
        proof {
            lemma_flat_len(old(self).expr, 0);
            lemma_replace_type_small_size(
                old(self).expr,
                T::spec_type_tag(),
                VisibilityConditionExpr::Empty,
            );
        }
        self.replace_type::<T, VisibilityConditionExpr>(
            crate::visibility_condition_constructors::empty(),
        )
    }
}

impl Clone for VisibilityCondition {
    /// Deep copy; the clone has the same node arena and expression.
    fn clone(&self) -> (r: Self)
        ensures
            r.nodes@ == self.nodes@,
            r.expr == self.expr,
    {
        VisibilityCondition { nodes: copy_nodes(&self.nodes), expr: self.expr.clone() }
    }
}

impl PartialEq for VisibilityCondition {
    /// Equality of conditions is equality of their condition ids: a
    /// probabilistic identity with negligible collision risk, accepted in
    /// place of deep structural comparison.
    fn eq(&self, other: &Self) -> (r: bool) {
        let a = self.condition_id();
        let b = other.condition_id();
        a.0 == b.0
    }
}

impl vstd::std_specs::cmp::PartialEqSpecImpl for VisibilityCondition {
    open spec fn obeys_eq_spec() -> bool {
        true
    }

    open spec fn eq_spec(&self, other: &Self) -> bool {
        spec_condition_id(self.nodes@) == spec_condition_id(other.nodes@)
    }
}

impl Eq for VisibilityCondition {

}

impl IntoVisibilityCondition for VisibilityCondition {
    open spec fn as_expr(&self) -> VisibilityConditionExpr {
        self.expr
    }

    fn build(self) -> VisibilityConditionExpr {
        self.expr
    }
}

/// Replacing matches by a single-node expression never grows the host
/// expression.
pub proof fn lemma_replace_small_size(
    e: VisibilityConditionExpr,
    pattern: VisibilityConditionExpr,
    rep: VisibilityConditionExpr,
)
    requires
        expr_size(rep) == 1,
    ensures
        expr_size(replace_expr(e, pattern, rep)) <= expr_size(e),
    decreases e,
{
    lemma_expr_size_pos(e);
    if e != pattern {
        match e {
            VisibilityConditionExpr::Not(c) => {
                lemma_replace_small_size(*c, pattern, rep);
            },
            VisibilityConditionExpr::And(l, r) => {
                lemma_replace_small_size(*l, pattern, rep);
                lemma_replace_small_size(*r, pattern, rep);
            },
            VisibilityConditionExpr::Or(l, r) => {
                lemma_replace_small_size(*l, pattern, rep);
                lemma_replace_small_size(*r, pattern, rep);
            },
            _ => {},
        }
    }
}

/// Replacing attribute leaves by a single-node expression never grows the
/// host expression.
pub proof fn lemma_replace_type_small_size(
    e: VisibilityConditionExpr,
    type_tag: u64,
    rep: VisibilityConditionExpr,
)
    requires
        expr_size(rep) == 1,
    ensures
        expr_size(replace_type_expr(e, type_tag, rep)) <= expr_size(e),
    decreases e,
{
    match e {
        VisibilityConditionExpr::Not(c) => {
            lemma_replace_type_small_size(*c, type_tag, rep);
        },
        VisibilityConditionExpr::And(l, r) => {
            lemma_replace_type_small_size(*l, type_tag, rep);
            lemma_replace_type_small_size(*r, type_tag, rep);
        },
        VisibilityConditionExpr::Or(l, r) => {
            lemma_replace_type_small_size(*l, type_tag, rep);
            lemma_replace_type_small_size(*r, type_tag, rep);
        },
        _ => {},
    }
}

/// Conditions built from equal expressions receive equal condition ids.
pub proof fn lemma_equal_construction_equal_id(
    e1: VisibilityConditionExpr,
    e2: VisibilityConditionExpr,
)
    requires
        e1 == e2,
    ensures
        spec_expr_condition_id(e1) == spec_expr_condition_id(e2),
{
}

/// Consolidation is idempotent, at the level of expressions and of
/// condition ids.
pub proof fn lemma_consolidation_idempotent_by_id(e: VisibilityConditionExpr)
    ensures
        consolidate(consolidate(e)) == consolidate(e),
        spec_expr_condition_id(consolidate(e)) == spec_expr_condition_id(e),
{
    crate::visibility_condition_constructors::lemma_consolidate_idempotent(e);
}

/// `and(C, empty)` and `and(empty, C)` receive the same condition id as
/// `C`, for every expression `C`.
pub proof fn lemma_and_empty_identity_by_id(e: VisibilityConditionExpr)
    ensures
        spec_expr_condition_id(
            VisibilityConditionExpr::And(Box::new(e), Box::new(VisibilityConditionExpr::Empty)),
        ) == spec_expr_condition_id(e),
        spec_expr_condition_id(
            VisibilityConditionExpr::And(Box::new(VisibilityConditionExpr::Empty), Box::new(e)),
        ) == spec_expr_condition_id(e),
{
    crate::visibility_condition_constructors::lemma_and_empty_identity(e);
}

/// `or(C, empty)` and `or(empty, C)` receive the same condition id as `C`,
/// for every expression `C`.
pub proof fn lemma_or_empty_identity_by_id(e: VisibilityConditionExpr)
    ensures
        spec_expr_condition_id(
            VisibilityConditionExpr::Or(Box::new(e), Box::new(VisibilityConditionExpr::Empty)),
        ) == spec_expr_condition_id(e),
        spec_expr_condition_id(
            VisibilityConditionExpr::Or(Box::new(VisibilityConditionExpr::Empty), Box::new(e)),
        ) == spec_expr_condition_id(e),
{
    crate::visibility_condition_constructors::lemma_or_empty_identity(e);
}

/// `not(empty)` receives the same condition id as `empty`.
pub proof fn lemma_not_empty_identity_by_id()
    ensures
        spec_expr_condition_id(
            VisibilityConditionExpr::Not(Box::new(VisibilityConditionExpr::Empty)),
        ) == spec_expr_condition_id(VisibilityConditionExpr::Empty),
{
    crate::visibility_condition_constructors::lemma_not_empty_identity();
}

/// Component that records the visibility condition for an entity.
///
/// An empty visibility condition always evaluates to `true`. This way, if
/// an entity has no `Visibility` attached it is visible to no clients, if
/// it has an empty `Visibility` it is visible to all clients, and if it has
/// a non-empty `Visibility` it is visible to clients that match the
/// condition.
#[derive(Debug)]
pub struct Visibility(pub VisibilityCondition);

impl Clone for Visibility {
    /// Deep copy; the clone has the same node arena and expression.
    fn clone(&self) -> (r: Self)
        ensures
            r.0.nodes@ == self.0.nodes@,
            r.0.expr == self.0.expr,
    {
        Visibility(self.0.clone())
    }
}

impl Visibility {
    /// Well-formedness of the inner condition.
    pub open spec fn wf(self) -> bool {
        self.0.wf()
    }

    /// Makes a new `Visibility` component.
    pub fn new<C: IntoVisibilityCondition>(condition: C) -> (r: Self)
        requires
            expr_size(condition.as_expr()) <= usize::MAX,
        ensures
            r.wf(),
            r.0.expr == consolidate(condition.as_expr()),
    {
        Visibility(VisibilityCondition::new(condition))
    }

    /// Accesses the inner condition.
    pub fn condition(&self) -> (r: &VisibilityCondition)
        ensures
            r == self.0,
    {
        &self.0
    }

    /// Gets the condition id of the inner condition.
    pub fn condition_id(&self) -> (r: VisibilityConditionId)
        ensures
            r.0 == spec_condition_id(self.0.nodes@),
    {
        self.0.condition_id()
    }

    /// Lists the attributes referenced in the condition tree, in
    /// left-to-right traversal order, duplicates included.
    pub fn iter_attributes(&self) -> (r: Vec<VisibilityAttributeId>)
        ensures
            r@ == attrs_of(self.0.nodes@),
    {
        self.0.iter_attributes()
    }

    /// Checks if the inner condition is empty.
    pub fn is_empty(&self) -> (r: bool)
        requires
            self.wf(),
        ensures
            r == (self.0.expr is Empty),
    {
        self.0.is_empty()
    }

    /// Evaluates the condition tree with an attribute evaluator.
    pub fn evaluate<F: Fn(VisibilityAttributeId) -> bool>(&self, evaluator: F) -> (r: bool)
        requires
            self.wf(),
            forall|a: VisibilityAttributeId| #[trigger] call_requires(evaluator, (a,)),
        ensures
            forall|p: spec_fn(VisibilityAttributeId) -> bool|
                #[trigger] inspector_models(evaluator, p) ==> r == sem(self.0.expr, p),
    {
        self.0.evaluate(evaluator)
    }

    /// Extends the condition with an AND relationship.
    pub fn and<C: IntoVisibilityCondition>(&mut self, other: C)
        requires
            old(self).wf(),
            1 + expr_size(old(self).0.expr) + expr_size(other.as_expr()) <= usize::MAX,
        ensures
            final(self).wf(),
            final(self).0.expr == consolidate(
                VisibilityConditionExpr::And(
                    Box::new(old(self).0.expr),
                    Box::new(other.as_expr()),
                ),
            ),
    {
        self.0.and(other)
    }

    /// Extends the condition with an OR relationship.
    pub fn or<C: IntoVisibilityCondition>(&mut self, other: C)
        requires
            old(self).wf(),
            1 + expr_size(old(self).0.expr) + expr_size(other.as_expr()) <= usize::MAX,
        ensures
            final(self).wf(),
            final(self).0.expr == consolidate(
                VisibilityConditionExpr::Or(
                    Box::new(old(self).0.expr),
                    Box::new(other.as_expr()),
                ),
            ),
    {
        self.0.or(other)
    }

    /// Replaces instances of a pattern in the condition.
    pub fn replace<P: IntoVisibilityCondition, R: IntoVisibilityCondition>(
        &mut self,
        pattern: P,
        replacement: R,
    ) -> (count: usize)
        requires
            old(self).wf(),
            expr_size(
                replace_expr(
                    old(self).0.expr,
                    consolidate(pattern.as_expr()),
                    consolidate(replacement.as_expr()),
                ),
            ) <= usize::MAX,
        ensures
            final(self).wf(),
            consolidate(pattern.as_expr()) is Empty ==> {
                &&& count == 0
                &&& final(self).0.expr == old(self).0.expr
            },
            !(consolidate(pattern.as_expr()) is Empty) ==> {
                &&& count == replace_count(old(self).0.expr, consolidate(pattern.as_expr()))
                &&& final(self).0.expr == consolidate(
                    replace_expr(
                        old(self).0.expr,
                        consolidate(pattern.as_expr()),
                        consolidate(replacement.as_expr()),
                    ),
                )
            },
    {
        self.0.replace(pattern, replacement)
    }

    /// Replaces attribute nodes of a certain type in the condition.
    pub fn replace_type<T: VisibilityAttribute, R: IntoVisibilityCondition>(
        &mut self,
        replacement: R,
    ) -> (count: usize)
        requires
            old(self).wf(),
            expr_size(
                replace_type_expr(
                    old(self).0.expr,
                    T::spec_type_tag(),
                    consolidate(replacement.as_expr()),
                ),
            ) <= usize::MAX,
        ensures
            final(self).wf(),
            count == replace_type_count(old(self).0.expr, T::spec_type_tag()),
            final(self).0.expr == consolidate(
                replace_type_expr(
                    old(self).0.expr,
                    T::spec_type_tag(),
                    consolidate(replacement.as_expr()),
                ),
            ),
    {
        self.0.replace_type::<T, R>(replacement)
    }

    /// Removes instances of a pattern in the condition.
    pub fn remove<P: IntoVisibilityCondition>(&mut self, pattern: P) -> (count: usize)
        requires
            old(self).wf(),
        ensures
            final(self).wf(),
            consolidate(pattern.as_expr()) is Empty ==> {
                &&& count == 0
                &&& final(self).0.expr == old(self).0.expr
            },
            !(consolidate(pattern.as_expr()) is Empty) ==> {
                &&& count == replace_count(old(self).0.expr, consolidate(pattern.as_expr()))
                &&& final(self).0.expr == consolidate(
                    replace_expr(
                        old(self).0.expr,
                        consolidate(pattern.as_expr()),
                        VisibilityConditionExpr::Empty,
                    ),
                )
            },
    {
        self.0.remove(pattern)
    }

    /// Removes attribute nodes of a certain type in the condition.
    pub fn remove_type<T: VisibilityAttribute>(&mut self) -> (count: usize)
        requires
            old(self).wf(),
        ensures
            final(self).wf(),
            count == replace_type_count(old(self).0.expr, T::spec_type_tag()),
            final(self).0.expr == consolidate(
                replace_type_expr(
                    old(self).0.expr,
                    T::spec_type_tag(),
                    VisibilityConditionExpr::Empty,
                ),
            ),
    {
        self.0.remove_type::<T>()
    }
}

impl PartialEq for Visibility {
    /// Equality of the inner conditions, by condition id.
    fn eq(&self, other: &Self) -> (r: bool) {
        let a = self.0.condition_id();
        let b = other.0.condition_id();
        a.0 == b.0
    }
}

impl vstd::std_specs::cmp::PartialEqSpecImpl for Visibility {
    open spec fn obeys_eq_spec() -> bool {
        true
    }

    open spec fn eq_spec(&self, other: &Self) -> bool {
        spec_condition_id(self.0.nodes@) == spec_condition_id(other.0.nodes@)
    }
}

impl Eq for Visibility {

}

impl IntoVisibilityCondition for Visibility {
    open spec fn as_expr(&self) -> VisibilityConditionExpr {
        self.0.expr
    }

    fn build(self) -> VisibilityConditionExpr {
        self.0.expr
    }
}

} // verus!
