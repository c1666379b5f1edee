use visibility_attributes::and;
use visibility_attributes::attr;
use visibility_attributes::not;
use visibility_attributes::or;
use visibility_attributes::DefaultVisibilityAttribute;
use visibility_attributes::VisibilityAttribute;
use visibility_attributes::VisibilityCondition;

const DUMMY_TAG: u64 = 20;
const TEST_TAG: u64 = 21;
const MANUAL_TAG: u64 = 22;

#[derive(Default, PartialEq, Eq)]
struct Dummy;

impl DefaultVisibilityAttribute for Dummy {
    fn spec_default_type_tag() -> u64 {
        DUMMY_TAG
    }

    fn default_type_tag() -> u64 {
        DUMMY_TAG
    }
}

#[derive(Default, PartialEq, Eq)]
struct Test;

impl DefaultVisibilityAttribute for Test {
    fn spec_default_type_tag() -> u64 {
        TEST_TAG
    }

    fn default_type_tag() -> u64 {
        TEST_TAG
    }
}

struct Manual(usize);

impl VisibilityAttribute for Manual {
    fn spec_type_tag() -> u64 {
        MANUAL_TAG
    }

    fn spec_inner_id(&self) -> u64 {
        self.0 as u64
    }

    fn type_tag() -> u64 {
        MANUAL_TAG
    }

    fn inner_attribute_id(&self) -> u64 {
        self.0 as u64
    }
}

#[test]
fn tests_derive_attr_check() {
    let condition = VisibilityCondition::new(attr(Test));
    assert!(condition.evaluate(|a| a == Test.attribute_id()));
    assert!(!condition.evaluate(|a| a != Test.attribute_id()));
    assert!(!condition.evaluate(|a| a == Dummy.attribute_id()));
    assert!(condition.evaluate(|a| a != Dummy.attribute_id()));
    assert!(!condition.evaluate(|a| a == Manual(0).attribute_id()));
    assert!(condition.evaluate(|a| a != Manual(0).attribute_id()));
    assert!(!condition.evaluate(|a| a == Manual(1).attribute_id()));
    assert!(condition.evaluate(|a| a != Manual(1).attribute_id()));
}

#[test]
fn tests_manual_attr_check() {
    let condition = VisibilityCondition::new(attr(Manual(1)));
    assert!(condition.evaluate(|a| a == Manual(1).attribute_id()));
    assert!(!condition.evaluate(|a| a != Manual(1).attribute_id()));
    assert!(!condition.evaluate(|a| a == Manual(0).attribute_id()));
    assert!(condition.evaluate(|a| a != Manual(0).attribute_id()));
    assert!(!condition.evaluate(|a| a == Test.attribute_id()));
    assert!(condition.evaluate(|a| a != Test.attribute_id()));
    assert!(!condition.evaluate(|a| a == Dummy.attribute_id()));
    assert!(condition.evaluate(|a| a != Dummy.attribute_id()));
}

#[test]
fn tests_not_check() {
    let condition = VisibilityCondition::new(not(attr(Test)));
    assert!(!condition.evaluate(|a| a == Test.attribute_id()));
    assert!(condition.evaluate(|a| a != Test.attribute_id()));
    assert!(condition.evaluate(|a| a == Dummy.attribute_id()));
    assert!(!condition.evaluate(|a| a != Dummy.attribute_id()));
    assert!(condition.evaluate(|a| a == Manual(0).attribute_id()));
    assert!(!condition.evaluate(|a| a != Manual(0).attribute_id()));
    assert!(condition.evaluate(|a| a == Manual(1).attribute_id()));
    assert!(!condition.evaluate(|a| a != Manual(1).attribute_id()));
}

#[test]
fn tests_and_check() {
    let condition = VisibilityCondition::new(and(attr(Test), attr(Manual(0))));
    assert!(!condition.evaluate(|a| a == Test.attribute_id()));
    assert!(!condition.evaluate(|a| a == Manual(0).attribute_id()));
    assert!(
        condition.evaluate(|a| a == Test.attribute_id() || a == Manual(0).attribute_id())
    );
    assert!(
        !condition.evaluate(|a| a == Test.attribute_id() && a == Manual(0).attribute_id())
    );
}

#[test]
fn tests_or_check() {
    let condition = VisibilityCondition::new(or(attr(Test), attr(Manual(0))));
    assert!(condition.evaluate(|a| a == Test.attribute_id()));
    assert!(condition.evaluate(|a| a == Manual(0).attribute_id()));
    assert!(!condition.evaluate(|a| a == Dummy.attribute_id()));
    assert!(!condition.evaluate(|a| a == Manual(1).attribute_id()));
    assert!(
        condition.evaluate(|a| a == Test.attribute_id() || a == Manual(0).attribute_id())
    );
    assert!(
        !condition.evaluate(|a| a == Test.attribute_id() && a == Manual(0).attribute_id())
    );
}

#[test]
fn tests_combo_check() {
    let condition = VisibilityCondition::new(
        or(not(attr(Test)), and(attr(Test), attr(Manual(0)))),
    );
    assert!(!condition.evaluate(|a| a == Test.attribute_id()));
    assert!(condition.evaluate(|a| a == Manual(0).attribute_id()));
    assert!(condition.evaluate(|a| a == Dummy.attribute_id()));
    assert!(
        condition.evaluate(|a| a == Test.attribute_id() || a == Manual(0).attribute_id())
    );
}
