//! Builtin visibility attributes.

use vstd::prelude::*;
use crate::visibility_attribute::DefaultVisibilityAttribute;
use crate::visibility_attribute::VisibilityAttribute;

verus! {

/// Reserved type tag of the builtin [`Global`] attribute.
pub const GLOBAL_ATTRIBUTE_TAG: u64 = 0;

/// Reserved type tag of the builtin [`Client`] attribute.
pub const CLIENT_ATTRIBUTE_TAG: u64 = 1;

/// The attribute id of the builtin [`Global`] attribute.
pub open spec fn global_attribute_id() -> crate::visibility_attribute::VisibilityAttributeId {
    crate::visibility_attribute::VisibilityAttributeId { type_tag: GLOBAL_ATTRIBUTE_TAG, inner: 0 }
}

/// The attribute id of the builtin [`Client`] attribute for one client.
pub open spec fn client_attribute_id(client_id: u64) -> crate::visibility_attribute::VisibilityAttributeId {
    crate::visibility_attribute::VisibilityAttributeId {
        type_tag: CLIENT_ATTRIBUTE_TAG,
        inner: client_id,
    }
}

/// Builtin [`VisibilityAttribute`] added to all clients by default.
///
/// Add this attribute to your entity visibility conditions if you want them
/// to be globally visible.
#[derive(Default, PartialEq, Eq, Copy, Clone, Debug)]
pub struct Global;

impl DefaultVisibilityAttribute for Global {
    open spec fn spec_default_type_tag() -> u64 {
        GLOBAL_ATTRIBUTE_TAG
    }

    fn default_type_tag() -> u64 {
        GLOBAL_ATTRIBUTE_TAG
    }
}

/// Builtin [`VisibilityAttribute`] added to all clients by default.
///
/// Add this attribute to your entity visibility conditions if you want them
/// to be visible to a specific client.
#[derive(PartialEq, Eq, Copy, Clone, Debug)]
pub struct Client(pub u64);

impl VisibilityAttribute for Client {
    open spec fn spec_type_tag() -> u64 {
        CLIENT_ATTRIBUTE_TAG
    }

    open spec fn spec_inner_id(&self) -> u64 {
        self.0
    }

    fn type_tag() -> u64 {
        CLIENT_ATTRIBUTE_TAG
    }

    fn inner_attribute_id(&self) -> u64 {
        self.0
    }
}

} // verus!
