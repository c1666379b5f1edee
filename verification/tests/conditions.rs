use visibility_attributes::and;
use visibility_attributes::empty;
use visibility_attributes::not;
use visibility_attributes::or;
use visibility_attributes::DefaultVisibilityAttribute;
use visibility_attributes::expr_eq;
use visibility_attributes::Visibility;
use visibility_attributes::VisibilityConditionNode;
use visibility_attributes::VisibilityAttribute;

const DUMMY_TAG: u64 = 10;
const TEST_TAG: u64 = 11;
const A_TAG: u64 = 12;
const B_TAG: u64 = 13;
const C_TAG: u64 = 14;
const D_TAG: u64 = 15;
const MANUAL_TAG: u64 = 16;
const MANUAL2_TAG: u64 = 17;

#[derive(Default, PartialEq)]
struct Dummy;

impl DefaultVisibilityAttribute for Dummy {
    fn spec_default_type_tag() -> u64 {
        DUMMY_TAG
    }

    fn default_type_tag() -> u64 {
        DUMMY_TAG
    }
}

#[derive(Default, PartialEq)]
struct Test;

impl DefaultVisibilityAttribute for Test {
    fn spec_default_type_tag() -> u64 {
        TEST_TAG
    }

    fn default_type_tag() -> u64 {
        TEST_TAG
    }
}

#[derive(Default, PartialEq)]
struct A;

impl DefaultVisibilityAttribute for A {
    fn spec_default_type_tag() -> u64 {
        A_TAG
    }

    fn default_type_tag() -> u64 {
        A_TAG
    }
}

#[derive(Default, PartialEq)]
struct B;

impl DefaultVisibilityAttribute for B {
    fn spec_default_type_tag() -> u64 {
        B_TAG
    }

    fn default_type_tag() -> u64 {
        B_TAG
    }
}

#[derive(Default, PartialEq)]
struct C;

impl DefaultVisibilityAttribute for C {
    fn spec_default_type_tag() -> u64 {
        C_TAG
    }

    fn default_type_tag() -> u64 {
        C_TAG
    }
}

#[derive(Default, PartialEq)]
struct D;

impl DefaultVisibilityAttribute for D {
    fn spec_default_type_tag() -> u64 {
        D_TAG
    }

    fn default_type_tag() -> u64 {
        D_TAG
    }
}

struct Manual(usize);

impl VisibilityAttribute for Manual {
    fn spec_type_tag() -> u64 {
        MANUAL_TAG
    }

    fn spec_inner_id(&self) -> u64 {
        self.0 as u64
    }

    fn type_tag() -> u64 {
        MANUAL_TAG
    }

    fn inner_attribute_id(&self) -> u64 {
        self.0 as u64
    }
}

struct Manual2(usize);

impl VisibilityAttribute for Manual2 {
    fn spec_type_tag() -> u64 {
        MANUAL2_TAG
    }

    fn spec_inner_id(&self) -> u64 {
        self.0 as u64
    }

    fn type_tag() -> u64 {
        MANUAL2_TAG
    }

    fn inner_attribute_id(&self) -> u64 {
        self.0 as u64
    }
}

#[test]
fn test_macro() {
    let _ = Visibility::new(Test);
    let _ = Visibility::new(and(Test, Test));
}

#[test]
fn empty_check() {
    let condition = Visibility::new(empty());
    assert!(condition.evaluate(|_| false));
    assert!(condition.evaluate(|_| true));

    let attrs = condition.iter_attributes();
    assert!(attrs.is_empty());

    assert_eq!(Visibility::new(empty()), Visibility::new(empty()));
}

#[test]
fn conditions_derive_attr_check() {
    let condition = Visibility::new(Test);
    assert!(condition.evaluate(|a| a == Test.attribute_id()));
    assert!(!condition.evaluate(|a| a != Test.attribute_id()));
    assert!(!condition.evaluate(|a| a == Dummy.attribute_id()));
    assert!(condition.evaluate(|a| a != Dummy.attribute_id()));
    assert!(!condition.evaluate(|a| a == Manual(0).attribute_id()));
    assert!(condition.evaluate(|a| a != Manual(0).attribute_id()));
    assert!(!condition.evaluate(|a| a == Manual(1).attribute_id()));
    assert!(condition.evaluate(|a| a != Manual(1).attribute_id()));

    assert_eq!(condition.iter_attributes(), vec![Test.attribute_id()]);
}

#[test]
fn conditions_manual_attr_check() {
    let condition = Visibility::new(Manual(1));
    assert!(condition.evaluate(|a| a == Manual(1).attribute_id()));
    assert!(!condition.evaluate(|a| a != Manual(1).attribute_id()));
    assert!(!condition.evaluate(|a| a == Manual(0).attribute_id()));
    assert!(condition.evaluate(|a| a != Manual(0).attribute_id()));
    assert!(!condition.evaluate(|a| a == Test.attribute_id()));
    assert!(condition.evaluate(|a| a != Test.attribute_id()));
    assert!(!condition.evaluate(|a| a == Dummy.attribute_id()));
    assert!(condition.evaluate(|a| a != Dummy.attribute_id()));

    assert_eq!(condition.iter_attributes(), vec![Manual(1).attribute_id()]);
}

#[test]
fn conditions_not_check() {
    let condition = Visibility::new(not(Test));
    assert!(!condition.evaluate(|a| a == Test.attribute_id()));
    assert!(condition.evaluate(|a| a != Test.attribute_id()));
    assert!(condition.evaluate(|a| a == Dummy.attribute_id()));
    assert!(!condition.evaluate(|a| a != Dummy.attribute_id()));
    assert!(condition.evaluate(|a| a == Manual(0).attribute_id()));
    assert!(!condition.evaluate(|a| a != Manual(0).attribute_id()));
    assert!(condition.evaluate(|a| a == Manual(1).attribute_id()));
    assert!(!condition.evaluate(|a| a != Manual(1).attribute_id()));

    assert_eq!(condition.iter_attributes(), vec![Test.attribute_id()]);

    assert_eq!(Visibility::new(not(empty())), Visibility::new(empty()));
}

#[test]
fn conditions_and_check() {
    let condition = Visibility::new(and(Test, Manual(0)));
    assert!(!condition.evaluate(|a| a == Test.attribute_id()));
    assert!(!condition.evaluate(|a| a == Manual(0).attribute_id()));
    assert!(
        condition.evaluate(|a| a == Test.attribute_id() || a == Manual(0).attribute_id())
    );
    assert!(
        !condition.evaluate(|a| a == Test.attribute_id() && a == Manual(0).attribute_id())
    );

    assert_eq!(
        condition.iter_attributes(),
        vec![Test.attribute_id(), Manual(0).attribute_id()]
    );

    assert_eq!(Visibility::new(and(empty(), A)), Visibility::new(A));
    assert_eq!(Visibility::new(and(A, empty())), Visibility::new(A));
    assert_eq!(Visibility::new(and(empty(), empty())), Visibility::new(empty()));
}

#[test]
fn conditions_or_check() {
    let condition = Visibility::new(or(Test, Manual(0)));
    assert!(condition.evaluate(|a| a == Test.attribute_id()));
    assert!(condition.evaluate(|a| a == Manual(0).attribute_id()));
    assert!(!condition.evaluate(|a| a == Dummy.attribute_id()));
    assert!(!condition.evaluate(|a| a == Manual(1).attribute_id()));
    assert!(
        condition.evaluate(|a| a == Test.attribute_id() || a == Manual(0).attribute_id())
    );
    assert!(
        !condition.evaluate(|a| a == Test.attribute_id() && a == Manual(0).attribute_id())
    );

    assert_eq!(
        condition.iter_attributes(),
        vec![Test.attribute_id(), Manual(0).attribute_id()]
    );

    assert_eq!(Visibility::new(or(empty(), A)), Visibility::new(A));
    assert_eq!(Visibility::new(or(A, empty())), Visibility::new(A));
    assert_eq!(Visibility::new(or(empty(), empty())), Visibility::new(empty()));
}

#[test]
fn conditions_combo_check() {
    let condition = Visibility::new(or(not(Test), and(Test, Manual(0))));
    assert!(!condition.evaluate(|a| a == Test.attribute_id()));
    assert!(condition.evaluate(|a| a == Manual(0).attribute_id()));
    assert!(condition.evaluate(|a| a == Dummy.attribute_id()));
    assert!(
        condition.evaluate(|a| a == Test.attribute_id() || a == Manual(0).attribute_id())
    );

    assert_eq!(
        condition.iter_attributes(),
        vec![Test.attribute_id(), Test.attribute_id(), Manual(0).attribute_id()]
    );
}

#[test]
fn all_check() {
    assert_eq!(Visibility::new(empty()), Visibility::new(empty()));
    assert_eq!(Visibility::new(A), Visibility::new(A));
    assert_eq!(
        Visibility::new(and(A, and(B, C))),
        Visibility::new(and(A, and(B, C)))
    );
    assert_eq!(
        Visibility::new(and(A, and(B, C))),
        Visibility::new(and(A, and(B, C)))
    );
    assert_eq!(
        Visibility::new(and(not(A), B)),
        Visibility::new(and(not(A), B))
    );
    assert_eq!(
        Visibility::new(and(A, not(B))),
        Visibility::new(and(A, not(B)))
    );
    assert_eq!(
        Visibility::new(and(A, and(B, C))),
        Visibility::new(and(A, and(B, C)))
    );
}

#[test]
fn any_check() {
    assert_eq!(Visibility::new(empty()), Visibility::new(empty()));
    assert_eq!(Visibility::new(A), Visibility::new(A));
    assert_eq!(
        Visibility::new(or(A, or(B, C))),
        Visibility::new(or(A, or(B, C)))
    );
    assert_eq!(
        Visibility::new(or(A, or(B, C))),
        Visibility::new(or(A, or(B, C)))
    );
    assert_eq!(
        Visibility::new(or(not(A), B)),
        Visibility::new(or(not(A), B))
    );
    assert_eq!(
        Visibility::new(or(A, not(B))),
        Visibility::new(or(A, not(B)))
    );
    assert_eq!(
        Visibility::new(or(A, or(B, C))),
        Visibility::new(or(A, or(B, C)))
    );
}

#[test]
fn none_check() {
    assert_eq!(Visibility::new(empty()), Visibility::new(empty()));
    assert_eq!(Visibility::new(not(A)), Visibility::new(not(A)));
    assert_eq!(
        Visibility::new(not(or(A, or(B, C)))),
        Visibility::new(not(or(A, or(B, C))))
    );
    assert_eq!(
        Visibility::new(not(or(A, or(B, C)))),
        Visibility::new(not(or(A, or(B, C))))
    );
    assert_eq!(
        Visibility::new(not(or(not(A), B))),
        Visibility::new(not(or(not(A), B)))
    );
    assert_eq!(
        Visibility::new(not(or(A, not(B)))),
        Visibility::new(not(or(A, not(B))))
    );
    assert_eq!(
        Visibility::new(not(or(A, not(or(B, C))))),
        Visibility::new(not(or(A, not(or(B, C)))))
    );
}

#[test]
fn condition_composition() {
    let a = Visibility::new(Test);
    let b = Visibility::new(not(Dummy));
    let c = Visibility::new(or(Manual(0), Manual(1)));
    let combo = Visibility::new(and(a, and(b, c)));

    assert!(!combo.evaluate(|a| a == Test.attribute_id()));
    assert!(!combo.evaluate(|a| a == Manual(0).attribute_id()));
    assert!(!combo.evaluate(|a| a == Dummy.attribute_id()));
    assert!(combo.evaluate(|a| a == Test.attribute_id() || a == Manual(0).attribute_id()));

    assert_eq!(
        combo.iter_attributes(),
        vec![
            Test.attribute_id(),
            Dummy.attribute_id(),
            Manual(0).attribute_id(),
            Manual(1).attribute_id(),
        ]
    );
}

#[test]
fn condition_ids() {
    // ATTRIBUTE
    let attribute1 = Visibility::new(Test);
    let attribute2 = Visibility::new(Dummy);
    let attribute3 = Visibility::new(Manual(1));
    let attribute4 = Visibility::new(Manual(2));

    assert_eq!(attribute1.condition_id(), attribute1.condition_id());
    assert_ne!(attribute1.condition_id(), attribute2.condition_id());
    assert_ne!(attribute1.condition_id(), attribute3.condition_id());

    assert_eq!(attribute3.condition_id(), attribute3.condition_id());
    assert_ne!(attribute3.condition_id(), attribute4.condition_id());

    // NOT
    let not1 = Visibility::new(not(Test));
    let not2 = Visibility::new(not(Dummy));
    let not3 = Visibility::new(not(Manual(1)));
    let not4 = Visibility::new(not(Manual(2)));

    assert_eq!(not1.condition_id(), not1.condition_id());
    assert_ne!(not1.condition_id(), not2.condition_id());
    assert_ne!(not1.condition_id(), not3.condition_id());
    assert_ne!(not1.condition_id(), attribute1.condition_id());

    assert_eq!(not3.condition_id(), not3.condition_id());
    assert_ne!(not3.condition_id(), not4.condition_id());
    assert_ne!(not3.condition_id(), attribute3.condition_id());

    // AND
    let and1 = Visibility::new(and(Test, Test));
    let and2 = Visibility::new(and(Test, Dummy));
    let and3 = Visibility::new(and(Test, Manual(1)));
    let and4 = Visibility::new(and(Test, Manual(2)));

    assert_eq!(and1.condition_id(), and1.condition_id());
    assert_ne!(and1.condition_id(), and2.condition_id());
    assert_ne!(and1.condition_id(), and3.condition_id());
    assert_ne!(and1.condition_id(), attribute1.condition_id());
    assert_ne!(and1.condition_id(), not1.condition_id());

    assert_eq!(and3.condition_id(), and3.condition_id());
    assert_ne!(and3.condition_id(), and4.condition_id());
    assert_ne!(and3.condition_id(), attribute3.condition_id());
    assert_ne!(and3.condition_id(), not3.condition_id());

    // OR
    let or1 = Visibility::new(or(Test, Test));
    let or2 = Visibility::new(or(Test, Dummy));
    let or3 = Visibility::new(or(Test, Manual(1)));
    let or4 = Visibility::new(or(Test, Manual(2)));

    assert_eq!(or1.condition_id(), or1.condition_id());
    assert_ne!(or1.condition_id(), or2.condition_id());
    assert_ne!(or1.condition_id(), or3.condition_id());
    assert_ne!(or1.condition_id(), attribute1.condition_id());
    assert_ne!(or1.condition_id(), not1.condition_id());
    assert_ne!(or1.condition_id(), and1.condition_id());

    assert_eq!(or3.condition_id(), or3.condition_id());
    assert_ne!(or3.condition_id(), or4.condition_id());
    assert_ne!(or3.condition_id(), attribute3.condition_id());
    assert_ne!(or3.condition_id(), not3.condition_id());
    assert_ne!(or3.condition_id(), and3.condition_id());

    // COMBO
    let combo1 = Visibility::new(or(Test, and(not(Test), Dummy)));
    let combo2 = Visibility::new(and(Test, or(Manual(0), Dummy)));

    assert_eq!(combo1.condition_id(), combo1.condition_id());
    assert_ne!(combo1.condition_id(), combo2.condition_id());
    assert_ne!(combo1.condition_id(), attribute1.condition_id());
    assert_ne!(combo1.condition_id(), not1.condition_id());
    assert_ne!(combo1.condition_id(), and1.condition_id());
    assert_ne!(combo1.condition_id(), or1.condition_id());
}

#[test]
fn consolidation() {
    assert_eq!(Visibility::new(and(A, not(empty()))), Visibility::new(A));
    assert_eq!(Visibility::new(and(not(empty()), A)), Visibility::new(A));
    assert_eq!(Visibility::new(or(A, not(empty()))), Visibility::new(A));
    assert_eq!(Visibility::new(or(not(empty()), A)), Visibility::new(A));

    assert_eq!(
        Visibility::new(and(and(A, empty()), empty())),
        Visibility::new(A)
    );
    assert_eq!(
        Visibility::new(and(empty(), and(empty(), A))),
        Visibility::new(A)
    );
}

#[test]
fn extension() {
    let mut a = Visibility::new(or(A, B));
    a.and(and(not(C), D));
    assert_eq!(a, Visibility::new(and(or(A, B), and(not(C), D))));

    let mut a = Visibility::new(not(A));
    a.or(or(B, C));
    assert_eq!(a, Visibility::new(or(not(A), or(B, C))));
}

#[test]
fn replacement() {
    let mut a = Visibility::new(and(A, B));
    a.replace(B, not(B));
    assert_eq!(a, Visibility::new(and(A, not(B))));

    a.replace(and(A, not(B)), C);
    assert_eq!(a, Visibility::new(C));
}

#[test]
fn replacement_by_type() {
    let mut a = Visibility::new(and(Manual(0), not(Manual(1))));
    a.replace_type::<Manual, _>(B);
    assert_eq!(a, Visibility::new(and(B, not(B))));

    let mut m = Visibility::new(Manual(20));
    m.replace_type::<Manual, _>(Manual(22));
    assert_eq!(m, Visibility::new(Manual(22)));
}

#[test]
fn removal() {
    let mut a = Visibility::new(and(A, B));
    a.remove(B);
    assert_eq!(a, Visibility::new(A));

    let mut b = Visibility::new(or(A, not(B)));
    b.remove(or(A, not(B)));
    assert_eq!(b, Visibility::new(empty()));
}

#[test]
fn removal_by_type() {
    let mut a = Visibility::new(and(Manual(0), not(Manual(1))));
    a.remove_type::<Manual>();
    assert_eq!(a, Visibility::new(empty()));

    let mut b = Visibility::new(or(Manual(1), Manual2(2)));
    b.remove_type::<Manual>();
    assert_eq!(b, Visibility::new(Manual2(2)));
}

#[test]
fn replacement_empty_pattern_is_noop() {
    let mut a = Visibility::new(and(A, B));
    let count = a.replace(empty(), C);
    assert_eq!(count, 0);
    assert_eq!(a, Visibility::new(and(A, B)));
}

#[test]
fn replacement_counts() {
    let mut a = Visibility::new(and(A, and(A, B)));
    let count = a.replace(A, C);
    assert_eq!(count, 2);
    assert_eq!(a, Visibility::new(and(C, and(C, B))));

    let mut b = Visibility::new(and(Manual(0), or(Manual(1), B)));
    let count = b.remove_type::<Manual>();
    assert_eq!(count, 2);
    assert_eq!(b, Visibility::new(B));
}

#[test]
fn flattened_layout() {
    let c = visibility_attributes::VisibilityCondition::new(and(A, not(B)));
    assert_eq!(
        c.as_slice(),
        &[
            VisibilityConditionNode::And(2),
            VisibilityConditionNode::Attr(A.attribute_id()),
            VisibilityConditionNode::Not,
            VisibilityConditionNode::Attr(B.attribute_id()),
        ]
    );

    let d = visibility_attributes::VisibilityCondition::new(or(not(A), B));
    assert_eq!(
        d.as_slice(),
        &[
            VisibilityConditionNode::Or(3),
            VisibilityConditionNode::Not,
            VisibilityConditionNode::Attr(A.attribute_id()),
            VisibilityConditionNode::Attr(B.attribute_id()),
        ]
    );

    let e = visibility_attributes::VisibilityCondition::new(empty());
    assert_eq!(e.as_slice(), &[VisibilityConditionNode::Empty]);
    assert!(e.is_empty());
    assert!(!d.is_empty());
}

#[test]
fn node_equivalence() {
    let a = VisibilityConditionNode::And(5);
    let b = VisibilityConditionNode::And(4);
    assert!(a.equivalent(3, &b, 2));
    assert!(!a.equivalent(3, &b, 3));
    assert!(!a.equivalent(3, &VisibilityConditionNode::Or(4), 2));

    let x = VisibilityConditionNode::Attr(A.attribute_id());
    let y = VisibilityConditionNode::Attr(B.attribute_id());
    assert!(x.equivalent(7, &x, 1));
    assert!(!x.equivalent(0, &y, 0));

    assert!(VisibilityConditionNode::Not.equivalent(4, &VisibilityConditionNode::Not, 9));
    assert!(VisibilityConditionNode::Empty.equivalent(0, &VisibilityConditionNode::Empty, 5));
    assert!(!VisibilityConditionNode::Empty.equivalent(0, &VisibilityConditionNode::Not, 0));
}

#[test]
fn expression_equality() {
    let e1 = and(A, not(B));
    let e2 = and(A, not(B));
    let e3 = and(not(B), A);
    assert!(expr_eq(&e1, &e2));
    assert!(!expr_eq(&e1, &e3));
    assert!(!expr_eq(&e1, &empty()));
}
