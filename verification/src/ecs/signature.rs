//! Component signatures: a fixed-size bitset classifying which component
//! kinds an entity carries. One signature identifies one archetype table.

use vstd::prelude::*;

verus! {

/// The closed enumeration of component kinds an entity may carry.
#[derive(Debug, Clone, Copy, PartialEq, Eq, Hash)]
pub enum ComponentKind {
    Render,
    Input,
    Model,
    Camera,
    Light,
    Texture,
    Terrain,
    Script,
    Physics,
    Hierarchy,
    Attributes,
    ParticleEmitter,
    Particle,
}

impl ComponentKind {
    /// The bit index identifying this kind inside a signature word.
    pub open spec fn index(self) -> u16 {
        match self {
            ComponentKind::Render => 0,
            ComponentKind::Input => 1,
            ComponentKind::Model => 2,
            ComponentKind::Camera => 3,
            ComponentKind::Light => 4,
            ComponentKind::Texture => 5,
            ComponentKind::Terrain => 6,
            ComponentKind::Script => 7,
            ComponentKind::Physics => 8,
            ComponentKind::Hierarchy => 9,
            ComponentKind::Attributes => 10,
            ComponentKind::ParticleEmitter => 11,
            ComponentKind::Particle => 12,
        }
    }

    /// The single-bit mask for this kind.
    pub open spec fn bit_spec(self) -> u16 {
        1u16 << self.index()
    }

    fn bit(self) -> (r: u16)
        ensures
            r == self.bit_spec(),
    {
        match self {
            ComponentKind::Render => 1 << 0,
            ComponentKind::Input => 1 << 1,
            ComponentKind::Model => 1 << 2,
            ComponentKind::Camera => 1 << 3,
            ComponentKind::Light => 1 << 4,
            ComponentKind::Texture => 1 << 5,
            ComponentKind::Terrain => 1 << 6,
            ComponentKind::Script => 1 << 7,
            ComponentKind::Physics => 1 << 8,
            ComponentKind::Hierarchy => 1 << 9,
            ComponentKind::Attributes => 1 << 10,
            ComponentKind::ParticleEmitter => 1 << 11,
            ComponentKind::Particle => 1 << 12,
        }
    }
}

/// An immutable bitset over [`ComponentKind`]. Two signatures are equal
/// iff their bit patterns match; the store keys archetype tables by it.
#[derive(Debug, Clone, Copy, PartialEq, Eq, Structural, Hash)]
pub struct ComponentSignature(pub u16);

impl ComponentSignature {
    /// The set of component kinds this signature contains.
    pub open spec fn kinds(self) -> Set<ComponentKind> {
        Set::new(|k: ComponentKind| self.0 & k.bit_spec() != 0)
    }

    /// Whether the signature contains `kind`, as a spec-level predicate.
    pub open spec fn has(self, kind: ComponentKind) -> bool {
        self.0 & kind.bit_spec() != 0
    }

    /// The signature of an entity carrying no optional components.
    pub fn empty() -> (r: Self)
        ensures
            r.kinds() == Set::<ComponentKind>::empty(),
            forall|k: ComponentKind| !r.has(k),
    {
        proof {
            assert forall|k: ComponentKind| !(0u16 & k.bit_spec() != 0) by {
                assert(0u16 & (1u16 << k.index()) == 0) by (bit_vector);
            }
            assert(Self(0).kinds() =~= Set::<ComponentKind>::empty());
        }
        Self(0)
    }

    /// Whether the signature contains `kind`.
    pub fn contains(self, kind: ComponentKind) -> (r: bool)
        ensures
            r == self.has(kind),
            r == self.kinds().contains(kind),
    {
        (self.0 & kind.bit()) != 0
    }

    /// The value [`ComponentSignature::with`] returns.
    pub open spec fn with_spec(self, kind: ComponentKind) -> Self {
        ComponentSignature(self.0 | kind.bit_spec())
    }

    /// The value [`ComponentSignature::without`] returns.
    pub open spec fn without_spec(self, kind: ComponentKind) -> Self {
        ComponentSignature(self.0 & !kind.bit_spec())
    }

    /// The signature with `kind` added; every other kind is unchanged.
    pub fn with(self, kind: ComponentKind) -> (r: Self)
        ensures
            r == self.with_spec(kind),
            r.kinds() == self.kinds().insert(kind),
            forall|k: ComponentKind| r.has(k) == (k == kind || self.has(k)),
    {
        let r = Self(self.0 | kind.bit());
        proof {
            assert forall|k: ComponentKind| r.has(k) == (k == kind || self.has(k)) by {
                lemma_bit_or(self.0, kind.index(), k.index());
                lemma_index_injective(kind, k);
            }
            assert forall|k: ComponentKind|
                r.kinds().contains(k) == self.kinds().insert(kind).contains(k) by {
                assert(r.has(k) == (k == kind || self.has(k)));
            }
            assert(r.kinds() =~= self.kinds().insert(kind));
        }
        r
    }

    /// The signature with `kind` removed; every other kind is unchanged.
    pub fn without(self, kind: ComponentKind) -> (r: Self)
        ensures
            r == self.without_spec(kind),
            r.kinds() == self.kinds().remove(kind),
            forall|k: ComponentKind| r.has(k) == (k != kind && self.has(k)),
    {
        let r = Self(self.0 & !kind.bit());
        proof {
            assert forall|k: ComponentKind| r.has(k) == (k != kind && self.has(k)) by {
                lemma_bit_and_not(self.0, kind.index(), k.index());
                lemma_index_injective(kind, k);
            }
            assert forall|k: ComponentKind|
                r.kinds().contains(k) == self.kinds().remove(kind).contains(k) by {
                assert(r.has(k) == (k != kind && self.has(k)));
            }
            assert(r.kinds() =~= self.kinds().remove(kind));
        }
        r
    }
}

/// What `with_spec` and `without_spec` mean on the set of kinds.
pub proof fn lemma_signature_spec_kinds(sig: ComponentSignature, kind: ComponentKind)
    ensures
        sig.with_spec(kind).kinds() == sig.kinds().insert(kind),
        sig.without_spec(kind).kinds() == sig.kinds().remove(kind),
{
    assert forall|k: ComponentKind|
        sig.with_spec(kind).kinds().contains(k) == sig.kinds().insert(kind).contains(k) by {
        lemma_bit_or(sig.0, kind.index(), k.index());
        lemma_index_injective(kind, k);
    }
    assert(sig.with_spec(kind).kinds() =~= sig.kinds().insert(kind));
    assert forall|k: ComponentKind|
        sig.without_spec(kind).kinds().contains(k) == sig.kinds().remove(kind).contains(k) by {
        lemma_bit_and_not(sig.0, kind.index(), k.index());
        lemma_index_injective(kind, k);
    }
    assert(sig.without_spec(kind).kinds() =~= sig.kinds().remove(kind));
}

/// Adding a kind a signature already has leaves it unchanged, and
/// removing a kind it lacks leaves it unchanged.
pub proof fn lemma_signature_noop(sig: ComponentSignature, kind: ComponentKind)
    ensures
        sig.has(kind) ==> sig.with_spec(kind) == sig,
        !sig.has(kind) ==> sig.without_spec(kind) == sig,
{
    let bits = sig.0;
    let i = kind.index();
    lemma_index_injective(kind, kind);
    assert(bits & (1u16 << i) != 0 ==> (bits | (1u16 << i)) == bits) by (bit_vector);
    assert(bits & (1u16 << i) == 0 ==> (bits & !(1u16 << i)) == bits) by (bit_vector);
}

/// Setting one bit leaves every other bit as it was.
proof fn lemma_bit_or(bits: u16, i: u16, j: u16)
    requires
        i < 16,
        j < 16,
    ensures
        ((bits | (1u16 << i)) & (1u16 << j) != 0) == (i == j || bits & (1u16 << j) != 0),
{
    assert(((bits | (1u16 << i)) & (1u16 << j) != 0) == (i == j || bits & (1u16 << j) != 0))
        by (bit_vector)
        requires
            i < 16,
            j < 16,
    ;
}

/// Clearing one bit leaves every other bit as it was.
proof fn lemma_bit_and_not(bits: u16, i: u16, j: u16)
    requires
        i < 16,
        j < 16,
    ensures
        ((bits & !(1u16 << i)) & (1u16 << j) != 0) == (i != j && bits & (1u16 << j) != 0),
{
    assert(((bits & !(1u16 << i)) & (1u16 << j) != 0) == (i != j && bits & (1u16 << j) != 0))
        by (bit_vector)
        requires
            i < 16,
            j < 16,
    ;
}

/// Distinct component kinds occupy distinct bit positions.
proof fn lemma_index_injective(a: ComponentKind, b: ComponentKind)
    ensures
        (a.index() == b.index()) == (a == b),
        a.index() < 16,
        b.index() < 16,
{
}

} // verus!
