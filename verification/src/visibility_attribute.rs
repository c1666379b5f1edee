//! Attribute identities.
//!
//! An attribute is a boolean fact a client may hold. Each attribute instance
//! is identified by a [`VisibilityAttributeId`]: a pair of a type tag, which
//! domain-separates attribute kinds, and an inner 64-bit id carrying any
//! per-instance data.

use vstd::prelude::*;

verus! {

/// Id associated with a visibility attribute.
///
/// This is used to differentiate visibility attributes within the attribute
/// engine's internal maps. Equivalent attribute instances have equal
/// attribute ids, and non-equivalent attribute instances have unequal
/// attribute ids, provided each attribute type uses a distinct type tag.
#[derive(Copy, Clone, Debug, Eq, PartialEq, Hash, Structural)]
pub struct VisibilityAttributeId {
    pub type_tag: u64,
    pub inner: u64,
}

impl VisibilityAttributeId {
    /// Makes a new visibility attribute id from a type tag and an inner id.
    pub fn new(type_tag: u64, inner_id: u64) -> (r: Self)
        ensures
            r == (VisibilityAttributeId { type_tag, inner: inner_id }),
    {
        VisibilityAttributeId { type_tag, inner: inner_id }
    }

    /// Gets the attribute's type tag.
    pub fn type_id(self) -> (r: u64)
        ensures
            r == self.type_tag,
    {
        self.type_tag
    }

    /// Gets the attribute's inner id.
    pub fn inner_id(self) -> (r: u64)
        ensures
            r == self.inner,
    {
        self.inner
    }

    /// The attribute id packed into a single 128-bit key: type tag in the
    /// upper half, inner id in the lower half.
    pub closed spec fn spec_key(self) -> u128 {
        ((self.type_tag as u128) * 0x1_0000_0000_0000_0000u128 + (self.inner as u128)) as u128
    }

    /// Packs the attribute id into a single 128-bit key for use in maps.
    pub fn key(self) -> (r: u128)
        ensures
            r == self.spec_key(),
    {
        (self.type_tag as u128) * 0x1_0000_0000_0000_0000u128 + (self.inner as u128)
    }
}

/// Equal keys come only from equal attribute ids: the packing is injective.
pub proof fn lemma_attribute_key_injective(a: VisibilityAttributeId, b: VisibilityAttributeId)
    requires
        a.spec_key() == b.spec_key(),
    ensures
        a == b,
{
}

/// Signifies that a type is a visibility attribute.
///
/// Each implementing type picks a type tag that is unique among the attribute
/// types of the application; the inner id distinguishes instances of one
/// type. Tags [`GLOBAL_ATTRIBUTE_TAG`] and [`CLIENT_ATTRIBUTE_TAG`] are
/// reserved for the builtin attributes.
///
/// [`GLOBAL_ATTRIBUTE_TAG`]: crate::builtin_attributes::GLOBAL_ATTRIBUTE_TAG
/// [`CLIENT_ATTRIBUTE_TAG`]: crate::builtin_attributes::CLIENT_ATTRIBUTE_TAG
pub trait VisibilityAttribute: Sized {
    /// The type tag of this attribute type, as a spec-level value.
    spec fn spec_type_tag() -> u64;

    /// The inner id of this attribute instance, as a spec-level value.
    spec fn spec_inner_id(&self) -> u64;

    /// Returns the type tag shared by all attributes of this type.
    fn type_tag() -> (r: u64)
        ensures
            r == Self::spec_type_tag(),
    ;

    /// Returns the inner id of this attribute.
    ///
    /// If the attribute carries non-type information (e.g. a client id), the
    /// inner id should encode it.
    fn inner_attribute_id(&self) -> (r: u64)
        ensures
            r == self.spec_inner_id(),
    ;

    /// Returns the id of the attribute: the concatenation of the attribute's
    /// type tag and its inner id.
    fn attribute_id(&self) -> (r: VisibilityAttributeId)
        ensures
            r == (VisibilityAttributeId { type_tag: Self::spec_type_tag(), inner: self.spec_inner_id() }),
    {
        VisibilityAttributeId::new(Self::type_tag(), self.inner_attribute_id())
    }
}

/// Marker for attribute types whose instances all denote one attribute.
///
/// Such types are unit-like markers: every instance receives inner id 0, so
/// the attribute is identified by its type tag alone. Types carrying
/// per-instance data should implement [`VisibilityAttribute`] directly and
/// define an appropriate inner id.
pub trait DefaultVisibilityAttribute: Sized {
    /// The type tag of this attribute type, as a spec-level value.
    spec fn spec_default_type_tag() -> u64;

    /// Returns the type tag shared by all attributes of this type.
    fn default_type_tag() -> (r: u64)
        ensures
            r == Self::spec_default_type_tag(),
    ;
}

impl<T: DefaultVisibilityAttribute> VisibilityAttribute for T {
    open spec fn spec_type_tag() -> u64 {
        T::spec_default_type_tag()
    }

    open spec fn spec_inner_id(&self) -> u64 {
        0u64
    }

    fn type_tag() -> u64 {
        T::default_type_tag()
    }

    fn inner_attribute_id(&self) -> u64 {
        0u64
    }
}

} // verus!
