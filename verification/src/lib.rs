//! Attribute-based visibility conditions and an incremental visibility cache.
//!
//! Entities carry a boolean *visibility condition* over *attributes* held by
//! clients. The visibility cache re-derives, incrementally on every change
//! to attributes or conditions, which clients may observe which entities, and
//! reports each change as a visibility update for the host's replication
//! sink.

mod builtin_attributes;
mod visibility_attribute;
mod visibility_cache;
mod visibility_condition;
mod visibility_condition_constructors;

pub use crate::builtin_attributes::client_attribute_id;
pub use crate::builtin_attributes::global_attribute_id;
pub use crate::builtin_attributes::Client;
pub use crate::builtin_attributes::Global;
pub use crate::builtin_attributes::CLIENT_ATTRIBUTE_TAG;
pub use crate::builtin_attributes::GLOBAL_ATTRIBUTE_TAG;
pub use crate::visibility_attribute::lemma_attribute_key_injective;
pub use crate::visibility_attribute::DefaultVisibilityAttribute;
pub use crate::visibility_attribute::VisibilityAttribute;
pub use crate::visibility_attribute::VisibilityAttributeId;
pub use crate::visibility_cache::apply_updates;
pub use crate::visibility_cache::emitted_or_false;
pub use crate::visibility_cache::eval_attrs;
pub use crate::visibility_cache::lemma_sink_consistency;
pub use crate::visibility_cache::ConditionEntry;
pub use crate::visibility_cache::VisibilityCache;
pub use crate::visibility_cache::VisibilityUpdate;
pub use crate::visibility_condition::attrs_of;
pub use crate::visibility_condition::expr_attrs;
pub use crate::visibility_condition::evaluate;
pub use crate::visibility_condition::flat;
pub use crate::visibility_condition::inspector_models;
pub use crate::visibility_condition::lemma_sem_agrees;
pub use crate::visibility_condition::lemma_and_empty_identity_by_id;
pub use crate::visibility_condition::lemma_consolidation_idempotent_by_id;
pub use crate::visibility_condition::lemma_equal_construction_equal_id;
pub use crate::visibility_condition::lemma_not_empty_identity_by_id;
pub use crate::visibility_condition::lemma_or_empty_identity_by_id;
pub use crate::visibility_condition::mentioned_keys;
pub use crate::visibility_condition::node_bytes;
pub use crate::visibility_condition::nodes_bytes;
pub use crate::visibility_condition::sip13_of;
pub use crate::visibility_condition::spec_condition_id;
pub use crate::visibility_condition::spec_expr_condition_id;
pub use crate::visibility_condition::Visibility;
pub use crate::visibility_condition::VisibilityCondition;
pub use crate::visibility_condition::VisibilityConditionId;
pub use crate::visibility_condition::VisibilityConditionNode;
pub use crate::visibility_condition_constructors::and;
pub use crate::visibility_condition_constructors::attr;
pub use crate::visibility_condition_constructors::consolidate;
pub use crate::visibility_condition_constructors::consolidate_expr;
pub use crate::visibility_condition_constructors::contains_empty;
pub use crate::visibility_condition_constructors::empty;
pub use crate::visibility_condition_constructors::expr_eq;
pub use crate::visibility_condition_constructors::expr_size;
pub use crate::visibility_condition_constructors::is_consolidated;
pub use crate::visibility_condition_constructors::lemma_and_empty_identity;
pub use crate::visibility_condition_constructors::lemma_consolidate_idempotent;
pub use crate::visibility_condition_constructors::lemma_not_empty_identity;
pub use crate::visibility_condition_constructors::lemma_or_empty_identity;
pub use crate::visibility_condition_constructors::not;
pub use crate::visibility_condition_constructors::or;
pub use crate::visibility_condition_constructors::replace_expr;
pub use crate::visibility_condition_constructors::sem;
pub use crate::visibility_condition_constructors::sem_set;
pub use crate::visibility_condition_constructors::IntoVisibilityCondition;
pub use crate::visibility_condition_constructors::VisibilityConditionExpr;
