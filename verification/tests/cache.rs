use std::collections::HashMap;

use visibility_attributes::and;
use visibility_attributes::empty;
use visibility_attributes::not;
use visibility_attributes::Client;
use visibility_attributes::DefaultVisibilityAttribute;
use visibility_attributes::Global;
use visibility_attributes::VisibilityAttribute;
use visibility_attributes::VisibilityCache;
use visibility_attributes::VisibilityCondition;
use visibility_attributes::VisibilityUpdate;

const A_TAG: u64 = 30;
const B_TAG: u64 = 31;

#[derive(Default, PartialEq)]
struct A;

impl DefaultVisibilityAttribute for A {
    fn spec_default_type_tag() -> u64 {
        A_TAG
    }

    fn default_type_tag() -> u64 {
        A_TAG
    }
}

#[derive(Default, PartialEq)]
struct B;

impl DefaultVisibilityAttribute for B {
    fn spec_default_type_tag() -> u64 {
        B_TAG
    }

    fn default_type_tag() -> u64 {
        B_TAG
    }
}

/// A tiny stand-in for the host's replication sink: the last visibility
/// forwarded per (entity, client) pair, applied in order.
struct Sink {
    vis: HashMap<(u64, u64), bool>,
}

impl Sink {
    fn new() -> Self {
        Sink { vis: HashMap::new() }
    }

    fn apply(&mut self, updates: &mut Vec<VisibilityUpdate>) {
        for u in updates.drain(..) {
            self.vis.insert((u.entity, u.client), u.visible);
        }
    }

    fn visible(&self, entity: u64, client: u64) -> bool {
        *self.vis.get(&(entity, client)).unwrap_or(&false)
    }
}

#[test]
fn attribute_transitions() {
    // Client with {A}; entity with condition and(A, not(B)) -> visible.
    // Add B -> invisible. Remove A -> stays invisible. Add A back and
    // remove B -> visible again.
    let mut cache = VisibilityCache::new();
    let mut sink = Sink::new();
    let mut ups: Vec<VisibilityUpdate> = Vec::new();

    cache.add_client_attribute(1, A.attribute_id(), &mut ups);
    sink.apply(&mut ups);

    let cond = VisibilityCondition::new(and(A, not(B)));
    cache.add_entity_condition(100, &cond, &mut ups);
    sink.apply(&mut ups);
    assert!(sink.visible(100, 1));

    cache.add_client_attribute(1, B.attribute_id(), &mut ups);
    sink.apply(&mut ups);
    assert!(!sink.visible(100, 1));

    cache.remove_client_attribute(1, A.attribute_id(), &mut ups);
    sink.apply(&mut ups);
    assert!(!sink.visible(100, 1));

    cache.add_client_attribute(1, A.attribute_id(), &mut ups);
    cache.remove_client_attribute(1, B.attribute_id(), &mut ups);
    sink.apply(&mut ups);
    assert!(sink.visible(100, 1));
}

#[test]
fn shared_condition_two_entities() {
    // Two entities independently assigned the same condition value (by
    // content, different instances) share one condition entry; removing
    // one entity does not affect the other's visibility to any client.
    let mut cache = VisibilityCache::new();
    let mut sink = Sink::new();
    let mut ups: Vec<VisibilityUpdate> = Vec::new();

    cache.add_client_attribute(1, A.attribute_id(), &mut ups);
    sink.apply(&mut ups);

    let cond1 = VisibilityCondition::new(and(A, not(B)));
    let cond2 = VisibilityCondition::new(and(A, not(B)));
    assert_eq!(cond1.condition_id(), cond2.condition_id());

    cache.add_entity_condition(100, &cond1, &mut ups);
    cache.add_entity_condition(200, &cond2, &mut ups);
    sink.apply(&mut ups);
    assert!(sink.visible(100, 1));
    assert!(sink.visible(200, 1));

    cache.remove_entity(100, &mut ups);
    sink.apply(&mut ups);
    assert!(!sink.visible(100, 1));
    assert!(sink.visible(200, 1));
}

#[test]
fn reset_forgets_attributes() {
    // Reset policy: after the client record is discarded and recreated,
    // only the builtin attributes remain, so attribute-derived visibility
    // is lost.
    let mut cache = VisibilityCache::new();
    let mut sink = Sink::new();
    let mut ups: Vec<VisibilityUpdate> = Vec::new();

    cache.reset_client(1, &mut ups);
    cache.add_client_attribute(1, A.attribute_id(), &mut ups);
    let cond = VisibilityCondition::new(attr_cond_a());
    cache.add_entity_condition(100, &cond, &mut ups);
    sink.apply(&mut ups);
    assert!(sink.visible(100, 1));

    // Disconnect discards the record; the host clears the client's sink
    // rows on disconnect.
    cache.remove_client(1);
    sink.vis.retain(|&(_, k), _| k != 1);

    // Reconnect without re-adding attributes: only builtins remain.
    cache.reset_client(1, &mut ups);
    sink.apply(&mut ups);
    assert!(!sink.visible(100, 1));
    let attrs = cache.iter_client_attributes(1);
    assert!(attrs.contains(&Global.attribute_id()));
    assert!(attrs.contains(&Client(1).attribute_id()));
    assert!(!attrs.contains(&A.attribute_id()));
}

#[test]
fn repair_retains_attributes() {
    // Repair policy: the client's attribute set is retained across the
    // reconnect, and repair restores matching visibility.
    let mut cache = VisibilityCache::new();
    let mut sink = Sink::new();
    let mut ups: Vec<VisibilityUpdate> = Vec::new();

    cache.repair_client(1, &mut ups);
    cache.add_client_attribute(1, A.attribute_id(), &mut ups);
    let cond = VisibilityCondition::new(attr_cond_a());
    cache.add_entity_condition(100, &cond, &mut ups);
    sink.apply(&mut ups);
    assert!(sink.visible(100, 1));

    // Disconnect under the repair policy leaves the cache alone, but the
    // host's sink forgets the client.
    sink.vis.retain(|&(_, k), _| k != 1);

    // Reconnect: repair re-evaluates every tracked condition from the
    // retained attributes.
    cache.repair_client(1, &mut ups);
    sink.apply(&mut ups);
    assert!(sink.visible(100, 1));
    let attrs = cache.iter_client_attributes(1);
    assert!(attrs.contains(&A.attribute_id()));
}

fn attr_cond_a() -> visibility_attributes::VisibilityConditionExpr {
    visibility_attributes::attr(A)
}

#[test]
fn empty_condition_visible_to_all_known_clients() {
    let mut cache = VisibilityCache::new();
    let mut sink = Sink::new();
    let mut ups: Vec<VisibilityUpdate> = Vec::new();

    cache.reset_client(1, &mut ups);
    cache.reset_client(2, &mut ups);
    let cond = VisibilityCondition::new(empty());
    cache.add_entity_condition(100, &cond, &mut ups);
    sink.apply(&mut ups);
    assert!(sink.visible(100, 1));
    assert!(sink.visible(100, 2));
}

#[test]
fn condition_added_before_client_connects() {
    // A condition referencing no attribute of the late client is still
    // re-evaluated for it on reset, so the client gains visibility.
    let mut cache = VisibilityCache::new();
    let mut sink = Sink::new();
    let mut ups: Vec<VisibilityUpdate> = Vec::new();

    let cond = VisibilityCondition::new(not(B));
    cache.add_entity_condition(100, &cond, &mut ups);
    sink.apply(&mut ups);
    assert!(!sink.visible(100, 1));

    cache.reset_client(1, &mut ups);
    sink.apply(&mut ups);
    assert!(sink.visible(100, 1));
}

#[test]
fn redundant_operations_are_noops() {
    let mut cache = VisibilityCache::new();
    let mut ups: Vec<VisibilityUpdate> = Vec::new();

    cache.add_client_attribute(1, A.attribute_id(), &mut ups);
    ups.clear();
    cache.add_client_attribute(1, A.attribute_id(), &mut ups);
    assert!(ups.is_empty());

    cache.remove_client_attribute(1, B.attribute_id(), &mut ups);
    assert!(ups.is_empty());

    let cond = VisibilityCondition::new(attr_cond_a());
    cache.add_entity_condition(100, &cond, &mut ups);
    ups.clear();
    let cond_again = VisibilityCondition::new(attr_cond_a());
    cache.add_entity_condition(100, &cond_again, &mut ups);
    assert!(ups.is_empty());
}

#[test]
fn condition_change_reassigns_entity() {
    let mut cache = VisibilityCache::new();
    let mut sink = Sink::new();
    let mut ups: Vec<VisibilityUpdate> = Vec::new();

    cache.add_client_attribute(1, A.attribute_id(), &mut ups);
    let cond_a = VisibilityCondition::new(attr_cond_a());
    cache.add_entity_condition(100, &cond_a, &mut ups);
    sink.apply(&mut ups);
    assert!(sink.visible(100, 1));

    // Switching the entity to a condition the client fails makes it
    // invisible.
    let cond_b = VisibilityCondition::new(visibility_attributes::attr(B));
    cache.add_entity_condition(100, &cond_b, &mut ups);
    sink.apply(&mut ups);
    assert!(!sink.visible(100, 1));
}

#[test]
fn entity_removed_becomes_invisible() {
    let mut cache = VisibilityCache::new();
    let mut sink = Sink::new();
    let mut ups: Vec<VisibilityUpdate> = Vec::new();

    cache.add_client_attribute(1, A.attribute_id(), &mut ups);
    let cond = VisibilityCondition::new(attr_cond_a());
    cache.add_entity_condition(100, &cond, &mut ups);
    sink.apply(&mut ups);
    assert!(sink.visible(100, 1));

    cache.remove_entity(100, &mut ups);
    sink.apply(&mut ups);
    assert!(!sink.visible(100, 1));
}

#[test]
fn client_queries() {
    let mut cache = VisibilityCache::new();
    let mut ups: Vec<VisibilityUpdate> = Vec::new();

    assert!(cache.client_attributes(1).is_none());
    assert!(cache.server_id().is_none());

    cache.add_client_attribute(1, A.attribute_id(), &mut ups);
    cache.add_client_attribute(2, B.attribute_id(), &mut ups);

    let cond = VisibilityCondition::new(attr_cond_a());
    assert!(cache.client_visibility(1, &cond));
    assert!(!cache.client_visibility(2, &cond));
    assert!(!cache.client_visibility(3, &cond));

    let matching = cache.iter_client_visibility(&cond);
    assert_eq!(matching, vec![1]);

    let attrs = cache.client_attributes(1).unwrap();
    assert_eq!(attrs.len(), 1);
    assert_eq!(attrs[0], A.attribute_id());
}

#[test]
fn server_as_client() {
    let mut cache = VisibilityCache::new();
    let mut ups: Vec<VisibilityUpdate> = Vec::new();

    cache.add_server_as_client(7, &mut ups);
    assert_eq!(cache.server_id(), Some(7));

    let global = VisibilityCondition::new(visibility_attributes::attr(Global));
    assert!(cache.client_visibility(7, &global));

    let own = VisibilityCondition::new(visibility_attributes::attr(Client(7)));
    assert!(cache.client_visibility(7, &own));

    let other = VisibilityCondition::new(visibility_attributes::attr(Client(8)));
    assert!(!cache.client_visibility(7, &other));
}

#[test]
fn attribute_id_fields() {
    let id = A.attribute_id();
    assert_eq!(id.type_id(), A_TAG);
    assert_eq!(id.inner_id(), 0);

    let cid = Client(42).attribute_id();
    assert_eq!(cid.inner_id(), 42);
    assert_ne!(cid.type_id(), Global.attribute_id().type_id());

    let manual = visibility_attributes::VisibilityAttributeId::new(99, 123);
    assert_eq!(manual.type_id(), 99);
    assert_eq!(manual.inner_id(), 123);
    assert_eq!(manual.key(), (99u128 << 64) | 123u128);
}
