//! The storage directory: owns all archetype tables, the entity→location
//! map, and performs schema migration on component add/remove.
//!
//! Each live entity has exactly one row in exactly one table, and the
//! table's signature equals the entity's current component set. Adding
//! or removing a component migrates the entity's whole row to the table
//! of the new signature (lazily created); replacing an existing
//! component's value happens in place.

use crate::archetypes::{Archetype, EntityComponents};
use crate::components::{
    AttributesComponent, CameraComponent, HierarchyComponent, InputComponent, LightComponent,
    ModelComponent, Name, Orientation, ParticleComponent, ParticleEmitterComponent,
    PhysicsComponent, Position, RenderComponent, ScriptComponent, TerrainComponent,
    TextureComponent,
};
use crate::ecs::entity_manager::EntityManager;
use crate::ecs::event_bus::{event_key_of, BoxedEvent, EventBus};
use crate::ecs::signature::{lemma_signature_noop, ComponentKind, ComponentSignature};
use crate::ecs::tag_manager::TagManager;
use crate::text::str_eq;
use std::collections::HashMap;
use vstd::prelude::*;

verus! {

broadcast use vstd::std_specs::hash::group_hash_axioms;

/// The core store object.
pub struct ECS {
    pub archetypes: Vec<Archetype>,
    pub entity_to_location: HashMap<u32, (usize, usize)>,
    /// Signature bits → index of that signature's table in `archetypes`.
    pub signature_to_index: HashMap<u16, usize>,
    pub entity_manager: EntityManager,
    pub tag_manager: TagManager,
    pub event_bus: EventBus,
}

impl ECS {
    /// Whether `id` is a live entity.
    pub open spec fn has_entity(self, id: u32) -> bool {
        self.entity_to_location@.contains_key(id)
    }

    /// The set of live entity identifiers.
    pub open spec fn live(self) -> Set<u32> {
        self.entity_to_location@.dom()
    }

    /// The complete data of live entity `id` (meaningful when
    /// `has_entity` holds).
    pub open spec fn bundle_of(self, id: u32) -> EntityComponents {
        let loc = self.entity_to_location@[id];
        self.archetypes@[loc.0 as int].bundle_at(loc.1 as int)
    }

    /// The signature of the table holding entity `id`, which always
    /// equals the set of components the entity currently has.
    pub open spec fn signature_of(self, id: u32) -> ComponentSignature {
        self.archetypes@[self.entity_to_location@[id].0 as int].signature
    }

    /// Location map and tables agree in both directions.
    pub open spec fn locations_wf(self) -> bool {
        &&& forall|id: u32|
            #[trigger] self.entity_to_location@.contains_key(id) ==> {
                let loc = self.entity_to_location@[id];
                &&& loc.0 < self.archetypes@.len()
                &&& loc.1 < self.archetypes@[loc.0 as int].spec_len()
                &&& self.archetypes@[loc.0 as int].entity_ids@[loc.1 as int] == id
            }
        &&& forall|a: int, r: int|
            0 <= a < self.archetypes@.len() && 0 <= r < self.archetypes@[a].spec_len() ==> {
                let id = #[trigger] self.archetypes@[a].entity_ids@[r];
                &&& self.entity_to_location@.contains_key(id)
                &&& self.entity_to_location@[id].0 == a
                &&& self.entity_to_location@[id].1 == r
            }
    }

    /// At most (and, once created, exactly) one table per signature.
    pub open spec fn signatures_wf(self) -> bool {
        &&& forall|bits: u16|
            #[trigger] self.signature_to_index@.contains_key(bits) ==> {
                let a = self.signature_to_index@[bits];
                &&& a < self.archetypes@.len()
                &&& self.archetypes@[a as int].signature.0 == bits
            }
        &&& forall|a: int|
            0 <= a < self.archetypes@.len() ==> {
                let bits = (#[trigger] self.archetypes@[a]).signature.0;
                &&& self.signature_to_index@.contains_key(bits)
                &&& self.signature_to_index@[bits] == a
            }
    }

    /// Live identifiers are never in the allocator's free pool, and are
    /// all below the allocator's high-water mark.
    pub open spec fn identities_wf(self) -> bool {
        &&& forall|id: u32|
            #[trigger] self.entity_to_location@.contains_key(id) ==> id
                < self.entity_manager.next_entity_id
                && !self.entity_manager.free_pool().contains(id)
        &&& forall|id: u32|
            #[trigger] self.entity_manager.free_pool().contains(id) ==> id
                < self.entity_manager.next_entity_id
    }

    /// No row moved, no table created, the location map untouched:
    /// what an in-place value replacement leaves of the layout.
    pub open spec fn layout_unchanged(pre: ECS, post: ECS) -> bool {
        &&& post.entity_to_location == pre.entity_to_location
        &&& post.archetypes@.len() == pre.archetypes@.len()
        &&& forall|t: int|
            0 <= t < pre.archetypes@.len() ==> (#[trigger] post.archetypes@[t]).entity_ids
                == pre.archetypes@[t].entity_ids && post.archetypes@[t].signature
                == pre.archetypes@[t].signature
    }

    /// What migrating `id`'s row out of its table does to the location
    /// map: the entity from the table's last row (if the vacated row was
    /// not the last) takes the vacated slot, and every other entity
    /// keeps its recorded location.
    pub open spec fn migrated_locations(pre: ECS, post: ECS, id: u32) -> bool {
        let loc = pre.entity_to_location@[id];
        let table = pre.archetypes@[loc.0 as int];
        let moved = table.entity_ids@[table.spec_len() - 1];
        &&& ((loc.1 as int) < table.spec_len() - 1 ==> post.entity_to_location@.contains_key(moved)
            && post.entity_to_location@[moved] == loc)
        &&& forall|e: u32|
            e != id && e != moved && #[trigger] pre.entity_to_location@.contains_key(e)
                ==> post.entity_to_location@.contains_key(e) && post.entity_to_location@[e]
                == pre.entity_to_location@[e]
    }

    /// Well-formedness of the whole store.
    pub open spec fn wf(self) -> bool {
        &&& forall|a: int| 0 <= a < self.archetypes@.len() ==> (#[trigger] self.archetypes@[a]).wf()
        &&& self.locations_wf()
        &&& self.signatures_wf()
        &&& self.identities_wf()
        &&& self.entity_manager.wf()
        &&& self.tag_manager.wf()
        &&& self.event_bus.wf()
    }

    pub fn new() -> (r: Self)
        ensures
            r.wf(),
            r.live() == Set::<u32>::empty(),
            forall|id: u32| !r.has_entity(id),
            forall|tag: Seq<char>| !r.tag_manager.has_tag(tag),
            r.entity_manager.next_entity_id == 0,
            r.entity_manager.free_pool() == Set::<u32>::empty(),
    {
        let r = ECS {
            archetypes: Vec::new(),
            entity_to_location: HashMap::new(),
            signature_to_index: HashMap::new(),
            entity_manager: EntityManager::new(),
            tag_manager: TagManager::new(),
            event_bus: EventBus::new(),
        };
        proof {
            assert(r.live() =~= Set::<u32>::empty());
        }
        r
    }

    /// The index of the table for `signature`, creating an empty table
    /// when none exists yet.
    fn get_or_create_archetype(&mut self, signature: ComponentSignature) -> (a: usize)
        requires
            old(self).wf(),
        ensures
            final(self).wf(),
            a < final(self).archetypes@.len(),
            final(self).archetypes@[a as int].signature == signature,
            old(self).archetypes@.len() <= final(self).archetypes@.len(),
            forall|i: int|
                0 <= i < old(self).archetypes@.len() ==> final(self).archetypes@[i] == old(
                    self,
                ).archetypes@[i],
            final(self).archetypes@.len() == old(self).archetypes@.len() || (final(self).archetypes@.len() == old(self).archetypes@.len() + 1 && a == old(
                self,
            ).archetypes@.len() && final(self).archetypes@[a as int].spec_len() == 0),
            final(self).entity_to_location == old(self).entity_to_location,
            final(self).entity_manager == old(self).entity_manager,
            final(self).tag_manager == old(self).tag_manager,
            final(self).event_bus == old(self).event_bus,
    {
        match self.signature_to_index.get(&signature.0) {
            Some(index) => {
                let a = *index;
                return a;
            },
            None => {},
        }
        let a = self.archetypes.len();
        self.archetypes.push(Archetype::new(signature));
        self.signature_to_index.insert(signature.0, a);
        proof {
            assert(final(self).locations_wf()) by {
                assert forall|t: int, r: int|
                    0 <= t < final(self).archetypes@.len() && 0 <= r < final(
                    self).archetypes@[t].spec_len() implies {
                    let id = #[trigger] final(self).archetypes@[t].entity_ids@[r];
                    &&& final(self).entity_to_location@.contains_key(id)
                    &&& final(self).entity_to_location@[id].0 == t
                    &&& final(self).entity_to_location@[id].1 == r
                } by {
                    assert(t < old(self).archetypes@.len());
                    assert(final(self).archetypes@[t] == old(self).archetypes@[t]);
                }
            }
            assert(final(self).signatures_wf()) by {
                assert forall|bits: u16|
                    #[trigger] final(self).signature_to_index@.contains_key(bits) implies {
                    let t = final(self).signature_to_index@[bits];
                    &&& t < final(self).archetypes@.len()
                    &&& final(self).archetypes@[t as int].signature.0 == bits
                } by {
                    if bits != signature.0 {
                        assert(old(self).signature_to_index@.contains_key(bits));
                    }
                }
            }
        }
        a
    }

    /// Evicts entity `id`: swap-removes its row (relocating whichever
    /// entity took the freed slot) and removes it from the location map,
    /// returning its complete data.
    fn remove_row(&mut self, id: u32) -> (bundle: EntityComponents)
        requires
            old(self).wf(),
            old(self).has_entity(id),
        ensures
            final(self).wf(),
            !final(self).has_entity(id),
            bundle == old(self).bundle_of(id),
            bundle.id == id,
            bundle.matches(old(self).signature_of(id)),
            forall|e: u32|
                e != id ==> final(self).has_entity(e) == old(self).has_entity(e),
            forall|e: u32|
                e != id && old(self).has_entity(e) ==> final(self).bundle_of(e) == old(
                    self,
                ).bundle_of(e) && final(self).signature_of(e) == old(self).signature_of(e),
            final(self).archetypes@.len() == old(self).archetypes@.len(),
            forall|t: int|
                0 <= t < old(self).archetypes@.len() ==> (#[trigger] final(self).archetypes@[t]).signature
                    == old(self).archetypes@[t].signature,
            ECS::migrated_locations(*old(self), *final(self), id),
            final(self).entity_manager == old(self).entity_manager,
            final(self).tag_manager == old(self).tag_manager,
            final(self).event_bus == old(self).event_bus,
    {
        let loc = *self.entity_to_location.get(&id).unwrap();
        let a = loc.0;
        let r = loc.1;
        self.entity_to_location.remove(&id);
        let ghost mid = *self;
        let mut table = self.archetypes.remove(a);
        let ghost old_table = table;
        let ghost old_len = table.spec_len();
        proof {
            old(self).archetypes@[a as int].lemma_rows_match(r as int);
        }
        let (bundle, swapped) = table.swap_remove_entity(r);
        self.archetypes.insert(a, table);
        proof {
            assert(self.archetypes@ =~= old(self).archetypes@.update(a as int, table));
        }
        match swapped {
            Some(moved) => {
                proof {
                    // The moved entity came from the old last row.
                    assert(old(self).archetypes@[a as int].entity_ids@[old_len - 1] == moved);
                    assert(old(self).entity_to_location@[moved] == (a, (old_len - 1) as usize));
                    assert(moved != id);
                }
                self.entity_to_location.insert(moved, (a, r));
            },
            None => {},
        }
        proof {
            lemma_wf_after_remove_row(*old(self), *final(self), id, a as int, r as int);
        }
        bundle
    }

    /// Inserts `bundle` as a new entity row in the table of `signature`.
    fn place_bundle(&mut self, bundle: EntityComponents, signature: ComponentSignature)
        requires
            old(self).wf(),
            !old(self).has_entity(bundle.id),
            bundle.matches(signature),
            bundle.id < old(self).entity_manager.next_entity_id,
            !old(self).entity_manager.free_pool().contains(bundle.id),
        ensures
            final(self).wf(),
            final(self).has_entity(bundle.id),
            final(self).bundle_of(bundle.id) == bundle,
            final(self).signature_of(bundle.id) == signature,
            forall|e: u32|
                e != bundle.id ==> final(self).has_entity(e) == old(self).has_entity(e),
            forall|e: u32|
                e != bundle.id && old(self).has_entity(e) ==> final(self).bundle_of(e) == old(
                    self,
                ).bundle_of(e) && final(self).signature_of(e) == old(self).signature_of(e),
            forall|e: u32|
                e != bundle.id && #[trigger] old(self).entity_to_location@.contains_key(e)
                    ==> final(self).entity_to_location@.contains_key(e) && final(self).entity_to_location@[e] == old(self).entity_to_location@[e],
            final(self).entity_manager == old(self).entity_manager,
            final(self).tag_manager == old(self).tag_manager,
            final(self).event_bus == old(self).event_bus,
    {
        let a = self.get_or_create_archetype(signature);
        let ghost mid = *self;
        let id = bundle.id;
        let mut table = self.archetypes.remove(a);
        let row = table.push_entity(bundle);
        self.archetypes.insert(a, table);
        proof {
            assert(self.archetypes@ =~= mid.archetypes@.update(a as int, table));
        }
        self.entity_to_location.insert(id, (a, row));
        proof {
            assert(mid.archetypes.len() == mid.archetypes@.len());
            let ghost fin = *self;
            assert(fin.archetypes@[a as int].entity_ids.len()
                == fin.archetypes@[a as int].entity_ids@.len());
            lemma_wf_after_place(*old(self), mid, *final(self), bundle, signature, a as int);
        }
    }
}

/// After evicting one row as `remove_row` does, the store is again
/// well-formed and every other entity's data is unchanged.
proof fn lemma_wf_after_remove_row(pre: ECS, post: ECS, id: u32, a: int, r: int)
    requires
        pre.wf(),
        pre.has_entity(id),
        pre.entity_to_location@[id] == (a as usize, r as usize),
        0 <= a < pre.archetypes@.len(),
        0 <= r < pre.archetypes@[a].spec_len(),
        post.archetypes@ == pre.archetypes@.update(
            a,
            post.archetypes@[a],
        ),
        post.archetypes@[a].wf(),
        post.archetypes@[a].signature == pre.archetypes@[a].signature,
        post.archetypes@[a].spec_len() == pre.archetypes@[a].spec_len() - 1,
        forall|i: int|
            0 <= i < post.archetypes@[a].spec_len() && i != r ==> post.archetypes@[a].bundle_at(i)
                == pre.archetypes@[a].bundle_at(i),
        r < post.archetypes@[a].spec_len() ==> post.archetypes@[a].bundle_at(r)
            == pre.archetypes@[a].bundle_at(pre.archetypes@[a].spec_len() - 1),
        post.entity_to_location@ == (if r < post.archetypes@[a].spec_len() {
            pre.entity_to_location@.remove(id).insert(
                pre.archetypes@[a].entity_ids@[pre.archetypes@[a].spec_len() - 1],
                (a as usize, r as usize),
            )
        } else {
            pre.entity_to_location@.remove(id)
        }),
        post.signature_to_index == pre.signature_to_index,
        post.entity_manager == pre.entity_manager,
        post.tag_manager == pre.tag_manager,
        post.event_bus == pre.event_bus,
    ensures
        post.wf(),
        !post.has_entity(id),
        forall|e: u32| e != id ==> post.has_entity(e) == pre.has_entity(e),
        forall|e: u32|
            e != id && pre.has_entity(e) ==> post.bundle_of(e) == pre.bundle_of(e)
                && post.signature_of(e) == pre.signature_of(e),
{
    let pre_table = pre.archetypes@[a];
    let post_table = post.archetypes@[a];
    let last = pre_table.spec_len() - 1;
    let moved = pre_table.entity_ids@[last];

    // The entity at the old last row is mapped to (a, last) in pre.
    assert(pre.entity_to_location@.contains_key(moved) && pre.entity_to_location@[moved] == (
    a as usize,
    last as usize,
    ));

    // Bundles determine identities.
    assert forall|i: int| 0 <= i < post_table.spec_len() implies post_table.entity_ids@[i] == (
    if i == r && r < post_table.spec_len() {
        moved
    } else {
        pre_table.entity_ids@[i]
    }) by {
        if i == r && r < post_table.spec_len() {
            assert(post_table.bundle_at(i) == pre_table.bundle_at(last));
        } else {
            assert(post_table.bundle_at(i) == pre_table.bundle_at(i));
        }
    }

    assert(post.locations_wf()) by {
        assert forall|e: u32| #[trigger] post.entity_to_location@.contains_key(e) implies {
            let loc = post.entity_to_location@[e];
            &&& loc.0 < post.archetypes@.len()
            &&& loc.1 < post.archetypes@[loc.0 as int].spec_len()
            &&& post.archetypes@[loc.0 as int].entity_ids@[loc.1 as int] == e
        } by {
            let loc = post.entity_to_location@[e];
            if e == moved && r < post_table.spec_len() {
                assert(loc == (a as usize, r as usize));
            } else {
                assert(pre.entity_to_location@.contains_key(e));
                assert(loc == pre.entity_to_location@[e]);
                if loc.0 as int == a {
                    // e sits in the touched table at an untouched row.
                    assert(loc.1 as int != r || e == id);
                    assert((loc.1 as int) < pre_table.spec_len());
                    if loc.1 as int == last {
                        assert(e == moved);
                        assert(r < post_table.spec_len() || e == id);
                    }
                    assert((loc.1 as int) < post_table.spec_len());
                }
            }
        }
        assert forall|t: int, i: int|
            0 <= t < post.archetypes@.len() && 0 <= i < post.archetypes@[t].spec_len() implies {
            let e = #[trigger] post.archetypes@[t].entity_ids@[i];
            &&& post.entity_to_location@.contains_key(e)
            &&& post.entity_to_location@[e].0 == t
            &&& post.entity_to_location@[e].1 == i
        } by {
            if t == a {
                if i == r && r < post_table.spec_len() {
                    assert(post_table.entity_ids@[i] == moved);
                } else {
                    let e = pre_table.entity_ids@[i];
                    assert(pre.entity_to_location@.contains_key(e));
                    assert(pre.entity_to_location@[e] == (a as usize, i as usize));
                    assert(e != id);
                    assert(e != moved || (i == last && last < post_table.spec_len()));
                }
            } else {
                let e = post.archetypes@[t].entity_ids@[i];
                assert(post.archetypes@[t] == pre.archetypes@[t]);
                assert(pre.entity_to_location@.contains_key(e));
                assert(pre.entity_to_location@[e] == (t as usize, i as usize));
                assert(e != id && (e != moved || a == t));
            }
        }
    }
    assert(post.signatures_wf()) by {
        assert forall|t: int| 0 <= t < post.archetypes@.len() implies {
            let bits = (#[trigger] post.archetypes@[t]).signature.0;
            &&& post.signature_to_index@.contains_key(bits)
            &&& post.signature_to_index@[bits] == t
        } by {
            assert(post.archetypes@[t].signature == pre.archetypes@[t].signature);
        }
    }
    assert(post.identities_wf()) by {
        assert forall|e: u32| #[trigger] post.entity_to_location@.contains_key(e) implies e
            < post.entity_manager.next_entity_id && !post.entity_manager.free_pool().contains(
            e,
        ) by {
            assert(pre.entity_to_location@.contains_key(e));
        }
    }
    assert forall|e: u32|
        e != id && pre.has_entity(e) implies post.bundle_of(e) == pre.bundle_of(e)
        && post.signature_of(e) == pre.signature_of(e) by {
        let loc = pre.entity_to_location@[e];
        if e == moved && r < post_table.spec_len() {
            assert(post.entity_to_location@[e] == (a as usize, r as usize));
            assert(post.bundle_of(e) == post_table.bundle_at(r));
            assert(post_table.bundle_at(r) == pre_table.bundle_at(last));
        } else {
            assert(post.entity_to_location@[e] == loc);
            if loc.0 as int == a {
                assert(loc.1 as int != r);
                if loc.1 as int == last {
                    assert(e == moved);
                }
                assert((loc.1 as int) < post_table.spec_len());
                assert(post_table.bundle_at(loc.1 as int) == pre_table.bundle_at(loc.1 as int));
            }
        }
    }
}

/// After pushing a fresh row as `place_bundle` does, the store is again
/// well-formed and every other entity's data is unchanged.
proof fn lemma_wf_after_place(
    pre: ECS,
    mid: ECS,
    post: ECS,
    bundle: EntityComponents,
    signature: ComponentSignature,
    a: int,
)
    requires
        pre.wf(),
        mid.wf(),
        !pre.has_entity(bundle.id),
        bundle.matches(signature),
        bundle.id < pre.entity_manager.next_entity_id,
        !pre.entity_manager.free_pool().contains(bundle.id),
        // mid: pre with possibly one fresh empty table for signature.
        0 <= a < mid.archetypes@.len(),
        mid.archetypes@.len() <= usize::MAX,
        mid.archetypes@[a].spec_len() < usize::MAX,
        mid.archetypes@[a].signature == signature,
        pre.archetypes@.len() <= mid.archetypes@.len(),
        forall|i: int|
            0 <= i < pre.archetypes@.len() ==> mid.archetypes@[i] == pre.archetypes@[i],
        mid.archetypes@.len() > pre.archetypes@.len() ==> mid.archetypes@.len()
            == pre.archetypes@.len() + 1 && a == pre.archetypes@.len()
            && mid.archetypes@[a].spec_len() == 0,
        mid.entity_to_location == pre.entity_to_location,
        mid.entity_manager == pre.entity_manager,
        mid.tag_manager == pre.tag_manager,
        mid.event_bus == pre.event_bus,
        // post: mid with the bundle pushed as the new last row of table a.
        post.archetypes@ == mid.archetypes@.update(a, post.archetypes@[a]),
        post.archetypes@[a].wf(),
        post.archetypes@[a].signature == signature,
        post.archetypes@[a].spec_len() == mid.archetypes@[a].spec_len() + 1,
        post.archetypes@[a].bundle_at(mid.archetypes@[a].spec_len() as int) == bundle,
        forall|i: int|
            0 <= i < mid.archetypes@[a].spec_len() ==> post.archetypes@[a].bundle_at(i)
                == mid.archetypes@[a].bundle_at(i),
        post.entity_to_location@ == mid.entity_to_location@.insert(
            bundle.id,
            (a as usize, mid.archetypes@[a].spec_len() as usize),
        ),
        post.signature_to_index == mid.signature_to_index,
        post.entity_manager == mid.entity_manager,
        post.tag_manager == mid.tag_manager,
        post.event_bus == mid.event_bus,
    ensures
        post.wf(),
        post.has_entity(bundle.id),
        post.bundle_of(bundle.id) == bundle,
        post.signature_of(bundle.id) == signature,
        forall|e: u32| e != bundle.id ==> post.has_entity(e) == pre.has_entity(e),
        forall|e: u32|
            e != bundle.id && pre.has_entity(e) ==> post.bundle_of(e) == pre.bundle_of(e)
                && post.signature_of(e) == pre.signature_of(e),
{
    let mid_table = mid.archetypes@[a];
    let post_table = post.archetypes@[a];
    let new_row = mid_table.spec_len() as int;

    assert forall|i: int| 0 <= i < post_table.spec_len() implies post_table.entity_ids@[i] == (
    if i == new_row {
        bundle.id
    } else {
        mid_table.entity_ids@[i]
    }) by {
        if i == new_row {
            assert(post_table.bundle_at(i) == bundle);
        } else {
            assert(post_table.bundle_at(i) == mid_table.bundle_at(i));
        }
    }

    assert(post.locations_wf()) by {
        assert forall|e: u32| #[trigger] post.entity_to_location@.contains_key(e) implies {
            let loc = post.entity_to_location@[e];
            &&& loc.0 < post.archetypes@.len()
            &&& loc.1 < post.archetypes@[loc.0 as int].spec_len()
            &&& post.archetypes@[loc.0 as int].entity_ids@[loc.1 as int] == e
        } by {
            if e == bundle.id {
                assert(post.entity_to_location@[e] == (a as usize, new_row as usize));
                assert((a as usize) as int == a);
                assert((new_row as usize) as int == new_row);
                assert(post_table.entity_ids@[new_row] == bundle.id);
                assert(new_row < post_table.spec_len());
            } else {
                assert(mid.entity_to_location@.contains_key(e));
                let loc = mid.entity_to_location@[e];
                if loc.0 as int == a {
                    assert(loc.1 < mid_table.spec_len());
                    assert(post_table.entity_ids@[loc.1 as int] == mid_table.entity_ids@[loc.1 as int]);
                }
            }
        }
        assert forall|t: int, i: int|
            0 <= t < post.archetypes@.len() && 0 <= i < post.archetypes@[t].spec_len() implies {
            let e = #[trigger] post.archetypes@[t].entity_ids@[i];
            &&& post.entity_to_location@.contains_key(e)
            &&& post.entity_to_location@[e].0 == t
            &&& post.entity_to_location@[e].1 == i
        } by {
            if t == a {
                if i == new_row {
                } else {
                    let e = mid_table.entity_ids@[i];
                    assert(mid.entity_to_location@.contains_key(e));
                    assert(mid.entity_to_location@[e] == (a as usize, i as usize));
                    assert(e != bundle.id);
                }
            } else {
                let e = post.archetypes@[t].entity_ids@[i];
                assert(post.archetypes@[t] == mid.archetypes@[t]);
                assert(mid.entity_to_location@.contains_key(e));
                assert(mid.entity_to_location@[e] == (t as usize, i as usize));
                assert(e != bundle.id);
            }
        }
    }
    assert(post.signatures_wf()) by {
        assert forall|t: int| 0 <= t < post.archetypes@.len() implies {
            let bits = (#[trigger] post.archetypes@[t]).signature.0;
            &&& post.signature_to_index@.contains_key(bits)
            &&& post.signature_to_index@[bits] == t
        } by {
            assert(post.archetypes@[t].signature == mid.archetypes@[t].signature);
        }
    }
    assert forall|t: int| 0 <= t < post.archetypes@.len() implies (
    #[trigger] post.archetypes@[t]).wf() by {
        if t != a {
            assert(post.archetypes@[t] == mid.archetypes@[t]);
        }
    }
    assert(post.identities_wf()) by {
        assert forall|e: u32| #[trigger] post.entity_to_location@.contains_key(e) implies e
            < post.entity_manager.next_entity_id && !post.entity_manager.free_pool().contains(
            e,
        ) by {
            if e != bundle.id {
                assert(pre.entity_to_location@.contains_key(e));
            }
        }
    }
    assert forall|e: u32|
        e != bundle.id && pre.has_entity(e) implies post.bundle_of(e) == pre.bundle_of(e)
        && post.signature_of(e) == pre.signature_of(e) by {
        let loc = pre.entity_to_location@[e];
        assert(post.entity_to_location@[e] == loc);
        if loc.0 as int == a {
            assert(loc.1 < mid_table.spec_len());
            assert(post_table.bundle_at(loc.1 as int) == mid_table.bundle_at(loc.1 as int));
        }
    }
}


/// After replacing one component value in place (no row added, removed
/// or reordered), the store is again well-formed and every other
/// entity's data is unchanged.
proof fn lemma_wf_after_update_row(pre: ECS, post: ECS, id: u32, a: int, r: int)
    requires
        pre.wf(),
        pre.has_entity(id),
        pre.entity_to_location@[id] == (a as usize, r as usize),
        0 <= a < pre.archetypes@.len(),
        0 <= r < pre.archetypes@[a].spec_len(),
        post.archetypes@ == pre.archetypes@.update(a, post.archetypes@[a]),
        post.archetypes@[a].wf(),
        post.archetypes@[a].signature == pre.archetypes@[a].signature,
        post.archetypes@[a].spec_len() == pre.archetypes@[a].spec_len(),
        post.archetypes@[a].entity_ids == pre.archetypes@[a].entity_ids,
        forall|i: int|
            0 <= i < post.archetypes@[a].spec_len() && i != r ==> post.archetypes@[a].bundle_at(i)
                == pre.archetypes@[a].bundle_at(i),
        post.entity_to_location == pre.entity_to_location,
        post.signature_to_index == pre.signature_to_index,
        post.entity_manager == pre.entity_manager,
        post.tag_manager == pre.tag_manager,
        post.event_bus == pre.event_bus,
    ensures
        post.wf(),
        post.has_entity(id),
        post.bundle_of(id) == post.archetypes@[a].bundle_at(r),
        post.signature_of(id) == pre.signature_of(id),
        forall|e: u32| e != id ==> post.has_entity(e) == pre.has_entity(e),
        forall|e: u32|
            e != id && pre.has_entity(e) ==> post.bundle_of(e) == pre.bundle_of(e)
                && post.signature_of(e) == pre.signature_of(e),
{
    assert(post.locations_wf()) by {
        assert forall|e: u32| #[trigger] post.entity_to_location@.contains_key(e) implies {
            let loc = post.entity_to_location@[e];
            &&& loc.0 < post.archetypes@.len()
            &&& loc.1 < post.archetypes@[loc.0 as int].spec_len()
            &&& post.archetypes@[loc.0 as int].entity_ids@[loc.1 as int] == e
        } by {
            assert(pre.entity_to_location@.contains_key(e));
            let loc = pre.entity_to_location@[e];
            if loc.0 as int == a {
                assert(post.archetypes@[a].entity_ids@[loc.1 as int] == pre.archetypes@[a].entity_ids@[loc.1 as int]);
            }
        }
        assert forall|t: int, i: int|
            0 <= t < post.archetypes@.len() && 0 <= i < post.archetypes@[t].spec_len() implies {
            let e = #[trigger] post.archetypes@[t].entity_ids@[i];
            &&& post.entity_to_location@.contains_key(e)
            &&& post.entity_to_location@[e].0 == t
            &&& post.entity_to_location@[e].1 == i
        } by {
            if t == a {
                assert(post.archetypes@[t].entity_ids@[i] == pre.archetypes@[t].entity_ids@[i]);
            } else {
                assert(post.archetypes@[t] == pre.archetypes@[t]);
            }
        }
    }
    assert(post.signatures_wf()) by {
        assert forall|t: int| 0 <= t < post.archetypes@.len() implies {
            let bits = (#[trigger] post.archetypes@[t]).signature.0;
            &&& post.signature_to_index@.contains_key(bits)
            &&& post.signature_to_index@[bits] == t
        } by {
            assert(post.archetypes@[t].signature == pre.archetypes@[t].signature);
        }
    }
    assert forall|t: int| 0 <= t < post.archetypes@.len() implies (
    #[trigger] post.archetypes@[t]).wf() by {
        if t != a {
            assert(post.archetypes@[t] == pre.archetypes@[t]);
        }
    }
    assert forall|e: u32|
        e != id && pre.has_entity(e) implies post.bundle_of(e) == pre.bundle_of(e)
        && post.signature_of(e) == pre.signature_of(e) by {
        let loc = pre.entity_to_location@[e];
        if loc.0 as int == a {
            assert((loc.1 as int) != r);
            assert(post.archetypes@[a].bundle_at(loc.1 as int) == pre.archetypes@[a].bundle_at(
                loc.1 as int,
            ));
        }
    }
}
impl ECS {
    /// Attaches or replaces entity `id`'s render component: an existing
    /// value is replaced in place; a new kind migrates the entity's row
    /// to the table whose signature adds the kind. Unknown ids no-op.
    pub fn add_render_component(&mut self, id: u32, component: RenderComponent)
        requires
            old(self).wf(),
        ensures
            final(self).wf(),
            !old(self).has_entity(id) ==> *final(self) == *old(self),
            old(self).has_entity(id) ==> {
                &&& final(self).has_entity(id)
                &&& final(self).bundle_of(id) == (EntityComponents {
                    render: Some(component),
                    ..old(self).bundle_of(id)
                })
                &&& final(self).signature_of(id) == old(self).signature_of(id).with_spec(
                    ComponentKind::Render,
                )
                &&& (old(self).signature_of(id).has(ComponentKind::Render)
                    ==> ECS::layout_unchanged(*old(self), *final(self)))
                &&& (!old(self).signature_of(id).has(ComponentKind::Render)
                    ==> ECS::migrated_locations(*old(self), *final(self), id))
                &&& forall|e: u32| e != id ==> final(self).has_entity(e) == old(self).has_entity(e)
                &&& forall|e: u32|
                    e != id && old(self).has_entity(e) ==> final(self).bundle_of(e) == old(
                        self,
                    ).bundle_of(e) && final(self).signature_of(e) == old(self).signature_of(e)
                &&& final(self).entity_manager == old(self).entity_manager
                &&& final(self).tag_manager == old(self).tag_manager
                &&& final(self).event_bus == old(self).event_bus
            },
    {
        let loc = match self.entity_to_location.get(&id) {
            Some(l) => *l,
            None => {
                return ;
            },
        };
        let a = loc.0;
        let r = loc.1;
        let signature = self.archetypes[a].signature;
        if signature.contains(ComponentKind::Render) {
            let ghost pre = *self;
            let mut table = self.archetypes.remove(a);
            let ghost tpre = table;
            match &mut table.renderables {
                Some(column) => {
                    column[r] = component;
                },
                None => {
                    proof {
                        assert(false);
                    }
                },
            }
            self.archetypes.insert(a, table);
            proof {
                assert(self.archetypes@ =~= pre.archetypes@.update(a as int, table));
                assert forall|i: int|
                    0 <= i < table.spec_len() && i != r implies table.bundle_at(i)
                    == tpre.bundle_at(i) by {}
                lemma_wf_after_update_row(pre, *self, id, a as int, r as int);
                assert(table.bundle_at(r as int) == (EntityComponents {
                    render: Some(component),
                    ..tpre.bundle_at(r as int)
                }));
                lemma_signature_noop(signature, ComponentKind::Render);
                assert(ECS::layout_unchanged(*old(self), *self)) by {
                    assert forall|t: int|
                        0 <= t < old(self).archetypes@.len() implies (
                        #[trigger] self.archetypes@[t]).entity_ids
                            == old(self).archetypes@[t].entity_ids
                            && self.archetypes@[t].signature
                            == old(self).archetypes@[t].signature by {
                        if t != a {
                            assert(self.archetypes@[t] == old(self).archetypes@[t]);
                        }
                    }
                }
            }
        } else {
            let mut bundle = self.remove_row(id);
            let ghost evicted = bundle;
            bundle.render = Some(component);
            let target = signature.with(ComponentKind::Render);
            proof {
                assert forall|k: ComponentKind| bundle.slot_filled(k) == target.has(k) by {
                    assert(evicted.slot_filled(k) == signature.has(k));
                }
            }
            self.place_bundle(bundle, target);
        proof {
            let loc = old(self).entity_to_location@[id];
            let table = old(self).archetypes@[loc.0 as int];
            let moved = table.entity_ids@[table.spec_len() - 1];
            if (loc.1 as int) < table.spec_len() - 1 {
                assert(old(self).entity_to_location@.contains_key(moved));
                assert(old(self).entity_to_location@[moved].1 == table.spec_len() - 1);
                assert(moved != id);
            }
            assert(ECS::migrated_locations(*old(self), *self, id));
        }
        }
    }

    /// Detaches entity `id`'s render component, migrating its row to
    /// the table whose signature drops the kind. If the entity does not
    /// carry the kind, or the id is unknown, nothing changes.
    pub fn remove_render_component(&mut self, id: u32)
        requires
            old(self).wf(),
        ensures
            final(self).wf(),
            !old(self).has_entity(id) ==> *final(self) == *old(self),
            old(self).has_entity(id) ==> {
                &&& final(self).has_entity(id)
                &&& final(self).bundle_of(id) == (EntityComponents {
                    render: None,
                    ..old(self).bundle_of(id)
                })
                &&& final(self).signature_of(id) == old(self).signature_of(id).without_spec(
                    ComponentKind::Render,
                )
                &&& (!old(self).signature_of(id).has(ComponentKind::Render) ==> *final(self)
                    == *old(self))
                &&& (old(self).signature_of(id).has(ComponentKind::Render)
                    ==> ECS::migrated_locations(*old(self), *final(self), id))
                &&& forall|e: u32| e != id ==> final(self).has_entity(e) == old(self).has_entity(e)
                &&& forall|e: u32|
                    e != id && old(self).has_entity(e) ==> final(self).bundle_of(e) == old(
                        self,
                    ).bundle_of(e) && final(self).signature_of(e) == old(self).signature_of(e)
                &&& final(self).entity_manager == old(self).entity_manager
                &&& final(self).tag_manager == old(self).tag_manager
                &&& final(self).event_bus == old(self).event_bus
            },
    {
        let loc = match self.entity_to_location.get(&id) {
            Some(l) => *l,
            None => {
                return ;
            },
        };
        let a = loc.0;
        let signature = self.archetypes[a].signature;
        if !signature.contains(ComponentKind::Render) {
            proof {
                lemma_signature_noop(signature, ComponentKind::Render);
                assert(ECS::layout_unchanged(*old(self), *self)) by {
                    assert forall|t: int|
                        0 <= t < old(self).archetypes@.len() implies (
                        #[trigger] self.archetypes@[t]).entity_ids
                            == old(self).archetypes@[t].entity_ids
                            && self.archetypes@[t].signature
                            == old(self).archetypes@[t].signature by {
                        if t != a {
                            assert(self.archetypes@[t] == old(self).archetypes@[t]);
                        }
                    }
                }
                old(self).archetypes@[a as int].lemma_rows_match(loc.1 as int);
                assert(old(self).bundle_of(id).render is None);
                assert(final(self).bundle_of(id) == (EntityComponents {
                    render: None,
                    ..old(self).bundle_of(id)
                }));
            }
            return ;
        }
        let mut bundle = self.remove_row(id);
        let ghost evicted = bundle;
        bundle.render = None;
        let target = signature.without(ComponentKind::Render);
        proof {
            assert forall|k: ComponentKind| bundle.slot_filled(k) == target.has(k) by {
                assert(evicted.slot_filled(k) == signature.has(k));
            }
        }
        self.place_bundle(bundle, target);
        proof {
            let loc = old(self).entity_to_location@[id];
            let table = old(self).archetypes@[loc.0 as int];
            let moved = table.entity_ids@[table.spec_len() - 1];
            if (loc.1 as int) < table.spec_len() - 1 {
                assert(old(self).entity_to_location@.contains_key(moved));
                assert(old(self).entity_to_location@[moved].1 == table.spec_len() - 1);
                assert(moved != id);
            }
            assert(ECS::migrated_locations(*old(self), *self, id));
        }
    }

    /// Attaches or replaces entity `id`'s input component: an existing
    /// value is replaced in place; a new kind migrates the entity's row
    /// to the table whose signature adds the kind. Unknown ids no-op.
    pub fn add_input_component(&mut self, id: u32, component: InputComponent)
        requires
            old(self).wf(),
        ensures
            final(self).wf(),
            !old(self).has_entity(id) ==> *final(self) == *old(self),
            old(self).has_entity(id) ==> {
                &&& final(self).has_entity(id)
                &&& final(self).bundle_of(id) == (EntityComponents {
                    input: Some(component),
                    ..old(self).bundle_of(id)
                })
                &&& final(self).signature_of(id) == old(self).signature_of(id).with_spec(
                    ComponentKind::Input,
                )
                &&& (old(self).signature_of(id).has(ComponentKind::Input)
                    ==> ECS::layout_unchanged(*old(self), *final(self)))
                &&& (!old(self).signature_of(id).has(ComponentKind::Input)
                    ==> ECS::migrated_locations(*old(self), *final(self), id))
                &&& forall|e: u32| e != id ==> final(self).has_entity(e) == old(self).has_entity(e)
                &&& forall|e: u32|
                    e != id && old(self).has_entity(e) ==> final(self).bundle_of(e) == old(
                        self,
                    ).bundle_of(e) && final(self).signature_of(e) == old(self).signature_of(e)
                &&& final(self).entity_manager == old(self).entity_manager
                &&& final(self).tag_manager == old(self).tag_manager
                &&& final(self).event_bus == old(self).event_bus
            },
    {
        let loc = match self.entity_to_location.get(&id) {
            Some(l) => *l,
            None => {
                return ;
            },
        };
        let a = loc.0;
        let r = loc.1;
        let signature = self.archetypes[a].signature;
        if signature.contains(ComponentKind::Input) {
            let ghost pre = *self;
            let mut table = self.archetypes.remove(a);
            let ghost tpre = table;
            match &mut table.inputs {
                Some(column) => {
                    column[r] = component;
                },
                None => {
                    proof {
                        assert(false);
                    }
                },
            }
            self.archetypes.insert(a, table);
            proof {
                assert(self.archetypes@ =~= pre.archetypes@.update(a as int, table));
                assert forall|i: int|
                    0 <= i < table.spec_len() && i != r implies table.bundle_at(i)
                    == tpre.bundle_at(i) by {}
                lemma_wf_after_update_row(pre, *self, id, a as int, r as int);
                assert(table.bundle_at(r as int) == (EntityComponents {
                    input: Some(component),
                    ..tpre.bundle_at(r as int)
                }));
                lemma_signature_noop(signature, ComponentKind::Input);
                assert(ECS::layout_unchanged(*old(self), *self)) by {
                    assert forall|t: int|
                        0 <= t < old(self).archetypes@.len() implies (
                        #[trigger] self.archetypes@[t]).entity_ids
                            == old(self).archetypes@[t].entity_ids
                            && self.archetypes@[t].signature
                            == old(self).archetypes@[t].signature by {
                        if t != a {
                            assert(self.archetypes@[t] == old(self).archetypes@[t]);
                        }
                    }
                }
            }
        } else {
            let mut bundle = self.remove_row(id);
            let ghost evicted = bundle;
            bundle.input = Some(component);
            let target = signature.with(ComponentKind::Input);
            proof {
                assert forall|k: ComponentKind| bundle.slot_filled(k) == target.has(k) by {
                    assert(evicted.slot_filled(k) == signature.has(k));
                }
            }
            self.place_bundle(bundle, target);
        proof {
            let loc = old(self).entity_to_location@[id];
            let table = old(self).archetypes@[loc.0 as int];
            let moved = table.entity_ids@[table.spec_len() - 1];
            if (loc.1 as int) < table.spec_len() - 1 {
                assert(old(self).entity_to_location@.contains_key(moved));
                assert(old(self).entity_to_location@[moved].1 == table.spec_len() - 1);
                assert(moved != id);
            }
            assert(ECS::migrated_locations(*old(self), *self, id));
        }
        }
    }

    /// Detaches entity `id`'s input component, migrating its row to
    /// the table whose signature drops the kind. If the entity does not
    /// carry the kind, or the id is unknown, nothing changes.
    pub fn remove_input_component(&mut self, id: u32)
        requires
            old(self).wf(),
        ensures
            final(self).wf(),
            !old(self).has_entity(id) ==> *final(self) == *old(self),
            old(self).has_entity(id) ==> {
                &&& final(self).has_entity(id)
                &&& final(self).bundle_of(id) == (EntityComponents {
                    input: None,
                    ..old(self).bundle_of(id)
                })
                &&& final(self).signature_of(id) == old(self).signature_of(id).without_spec(
                    ComponentKind::Input,
                )
                &&& (!old(self).signature_of(id).has(ComponentKind::Input) ==> *final(self)
                    == *old(self))
                &&& (old(self).signature_of(id).has(ComponentKind::Input)
                    ==> ECS::migrated_locations(*old(self), *final(self), id))
                &&& forall|e: u32| e != id ==> final(self).has_entity(e) == old(self).has_entity(e)
                &&& forall|e: u32|
                    e != id && old(self).has_entity(e) ==> final(self).bundle_of(e) == old(
                        self,
                    ).bundle_of(e) && final(self).signature_of(e) == old(self).signature_of(e)
                &&& final(self).entity_manager == old(self).entity_manager
                &&& final(self).tag_manager == old(self).tag_manager
                &&& final(self).event_bus == old(self).event_bus
            },
    {
        let loc = match self.entity_to_location.get(&id) {
            Some(l) => *l,
            None => {
                return ;
            },
        };
        let a = loc.0;
        let signature = self.archetypes[a].signature;
        if !signature.contains(ComponentKind::Input) {
            proof {
                lemma_signature_noop(signature, ComponentKind::Input);
                assert(ECS::layout_unchanged(*old(self), *self)) by {
                    assert forall|t: int|
                        0 <= t < old(self).archetypes@.len() implies (
                        #[trigger] self.archetypes@[t]).entity_ids
                            == old(self).archetypes@[t].entity_ids
                            && self.archetypes@[t].signature
                            == old(self).archetypes@[t].signature by {
                        if t != a {
                            assert(self.archetypes@[t] == old(self).archetypes@[t]);
                        }
                    }
                }
                old(self).archetypes@[a as int].lemma_rows_match(loc.1 as int);
                assert(old(self).bundle_of(id).input is None);
                assert(final(self).bundle_of(id) == (EntityComponents {
                    input: None,
                    ..old(self).bundle_of(id)
                }));
            }
            return ;
        }
        let mut bundle = self.remove_row(id);
        let ghost evicted = bundle;
        bundle.input = None;
        let target = signature.without(ComponentKind::Input);
        proof {
            assert forall|k: ComponentKind| bundle.slot_filled(k) == target.has(k) by {
                assert(evicted.slot_filled(k) == signature.has(k));
            }
        }
        self.place_bundle(bundle, target);
        proof {
            let loc = old(self).entity_to_location@[id];
            let table = old(self).archetypes@[loc.0 as int];
            let moved = table.entity_ids@[table.spec_len() - 1];
            if (loc.1 as int) < table.spec_len() - 1 {
                assert(old(self).entity_to_location@.contains_key(moved));
                assert(old(self).entity_to_location@[moved].1 == table.spec_len() - 1);
                assert(moved != id);
            }
            assert(ECS::migrated_locations(*old(self), *self, id));
        }
    }

    /// Attaches or replaces entity `id`'s model component: an existing
    /// value is replaced in place; a new kind migrates the entity's row
    /// to the table whose signature adds the kind. Unknown ids no-op.
    pub fn add_model_component(&mut self, id: u32, component: ModelComponent)
        requires
            old(self).wf(),
        ensures
            final(self).wf(),
            !old(self).has_entity(id) ==> *final(self) == *old(self),
            old(self).has_entity(id) ==> {
                &&& final(self).has_entity(id)
                &&& final(self).bundle_of(id) == (EntityComponents {
                    model: Some(component),
                    ..old(self).bundle_of(id)
                })
                &&& final(self).signature_of(id) == old(self).signature_of(id).with_spec(
                    ComponentKind::Model,
                )
                &&& (old(self).signature_of(id).has(ComponentKind::Model)
                    ==> ECS::layout_unchanged(*old(self), *final(self)))
                &&& (!old(self).signature_of(id).has(ComponentKind::Model)
                    ==> ECS::migrated_locations(*old(self), *final(self), id))
                &&& forall|e: u32| e != id ==> final(self).has_entity(e) == old(self).has_entity(e)
                &&& forall|e: u32|
                    e != id && old(self).has_entity(e) ==> final(self).bundle_of(e) == old(
                        self,
                    ).bundle_of(e) && final(self).signature_of(e) == old(self).signature_of(e)
                &&& final(self).entity_manager == old(self).entity_manager
                &&& final(self).tag_manager == old(self).tag_manager
                &&& final(self).event_bus == old(self).event_bus
            },
    {
        let loc = match self.entity_to_location.get(&id) {
            Some(l) => *l,
            None => {
                return ;
            },
        };
        let a = loc.0;
        let r = loc.1;
        let signature = self.archetypes[a].signature;
        if signature.contains(ComponentKind::Model) {
            let ghost pre = *self;
            let mut table = self.archetypes.remove(a);
            let ghost tpre = table;
            match &mut table.models {
                Some(column) => {
                    column[r] = component;
                },
                None => {
                    proof {
                        assert(false);
                    }
                },
            }
            self.archetypes.insert(a, table);
            proof {
                assert(self.archetypes@ =~= pre.archetypes@.update(a as int, table));
                assert forall|i: int|
                    0 <= i < table.spec_len() && i != r implies table.bundle_at(i)
                    == tpre.bundle_at(i) by {}
                lemma_wf_after_update_row(pre, *self, id, a as int, r as int);
                assert(table.bundle_at(r as int) == (EntityComponents {
                    model: Some(component),
                    ..tpre.bundle_at(r as int)
                }));
                lemma_signature_noop(signature, ComponentKind::Model);
                assert(ECS::layout_unchanged(*old(self), *self)) by {
                    assert forall|t: int|
                        0 <= t < old(self).archetypes@.len() implies (
                        #[trigger] self.archetypes@[t]).entity_ids
                            == old(self).archetypes@[t].entity_ids
                            && self.archetypes@[t].signature
                            == old(self).archetypes@[t].signature by {
                        if t != a {
                            assert(self.archetypes@[t] == old(self).archetypes@[t]);
                        }
                    }
                }
            }
        } else {
            let mut bundle = self.remove_row(id);
            let ghost evicted = bundle;
            bundle.model = Some(component);
            let target = signature.with(ComponentKind::Model);
            proof {
                assert forall|k: ComponentKind| bundle.slot_filled(k) == target.has(k) by {
                    assert(evicted.slot_filled(k) == signature.has(k));
                }
            }
            self.place_bundle(bundle, target);
        proof {
            let loc = old(self).entity_to_location@[id];
            let table = old(self).archetypes@[loc.0 as int];
            let moved = table.entity_ids@[table.spec_len() - 1];
            if (loc.1 as int) < table.spec_len() - 1 {
                assert(old(self).entity_to_location@.contains_key(moved));
                assert(old(self).entity_to_location@[moved].1 == table.spec_len() - 1);
                assert(moved != id);
            }
            assert(ECS::migrated_locations(*old(self), *self, id));
        }
        }
    }

    /// Detaches entity `id`'s model component, migrating its row to
    /// the table whose signature drops the kind. If the entity does not
    /// carry the kind, or the id is unknown, nothing changes.
    pub fn remove_model_component(&mut self, id: u32)
        requires
            old(self).wf(),
        ensures
            final(self).wf(),
            !old(self).has_entity(id) ==> *final(self) == *old(self),
            old(self).has_entity(id) ==> {
                &&& final(self).has_entity(id)
                &&& final(self).bundle_of(id) == (EntityComponents {
                    model: None,
                    ..old(self).bundle_of(id)
                })
                &&& final(self).signature_of(id) == old(self).signature_of(id).without_spec(
                    ComponentKind::Model,
                )
                &&& (!old(self).signature_of(id).has(ComponentKind::Model) ==> *final(self)
                    == *old(self))
                &&& (old(self).signature_of(id).has(ComponentKind::Model)
                    ==> ECS::migrated_locations(*old(self), *final(self), id))
                &&& forall|e: u32| e != id ==> final(self).has_entity(e) == old(self).has_entity(e)
                &&& forall|e: u32|
                    e != id && old(self).has_entity(e) ==> final(self).bundle_of(e) == old(
                        self,
                    ).bundle_of(e) && final(self).signature_of(e) == old(self).signature_of(e)
                &&& final(self).entity_manager == old(self).entity_manager
                &&& final(self).tag_manager == old(self).tag_manager
                &&& final(self).event_bus == old(self).event_bus
            },
    {
        let loc = match self.entity_to_location.get(&id) {
            Some(l) => *l,
            None => {
                return ;
            },
        };
        let a = loc.0;
        let signature = self.archetypes[a].signature;
        if !signature.contains(ComponentKind::Model) {
            proof {
                lemma_signature_noop(signature, ComponentKind::Model);
                assert(ECS::layout_unchanged(*old(self), *self)) by {
                    assert forall|t: int|
                        0 <= t < old(self).archetypes@.len() implies (
                        #[trigger] self.archetypes@[t]).entity_ids
                            == old(self).archetypes@[t].entity_ids
                            && self.archetypes@[t].signature
                            == old(self).archetypes@[t].signature by {
                        if t != a {
                            assert(self.archetypes@[t] == old(self).archetypes@[t]);
                        }
                    }
                }
                old(self).archetypes@[a as int].lemma_rows_match(loc.1 as int);
                assert(old(self).bundle_of(id).model is None);
                assert(final(self).bundle_of(id) == (EntityComponents {
                    model: None,
                    ..old(self).bundle_of(id)
                }));
            }
            return ;
        }
        let mut bundle = self.remove_row(id);
        let ghost evicted = bundle;
        bundle.model = None;
        let target = signature.without(ComponentKind::Model);
        proof {
            assert forall|k: ComponentKind| bundle.slot_filled(k) == target.has(k) by {
                assert(evicted.slot_filled(k) == signature.has(k));
            }
        }
        self.place_bundle(bundle, target);
        proof {
            let loc = old(self).entity_to_location@[id];
            let table = old(self).archetypes@[loc.0 as int];
            let moved = table.entity_ids@[table.spec_len() - 1];
            if (loc.1 as int) < table.spec_len() - 1 {
                assert(old(self).entity_to_location@.contains_key(moved));
                assert(old(self).entity_to_location@[moved].1 == table.spec_len() - 1);
                assert(moved != id);
            }
            assert(ECS::migrated_locations(*old(self), *self, id));
        }
    }

    /// Attaches or replaces entity `id`'s camera component: an existing
    /// value is replaced in place; a new kind migrates the entity's row
    /// to the table whose signature adds the kind. Unknown ids no-op.
    pub fn add_camera_component(&mut self, id: u32, component: CameraComponent)
        requires
            old(self).wf(),
        ensures
            final(self).wf(),
            !old(self).has_entity(id) ==> *final(self) == *old(self),
            old(self).has_entity(id) ==> {
                &&& final(self).has_entity(id)
                &&& final(self).bundle_of(id) == (EntityComponents {
                    camera: Some(component),
                    ..old(self).bundle_of(id)
                })
                &&& final(self).signature_of(id) == old(self).signature_of(id).with_spec(
                    ComponentKind::Camera,
                )
                &&& (old(self).signature_of(id).has(ComponentKind::Camera)
                    ==> ECS::layout_unchanged(*old(self), *final(self)))
                &&& (!old(self).signature_of(id).has(ComponentKind::Camera)
                    ==> ECS::migrated_locations(*old(self), *final(self), id))
                &&& forall|e: u32| e != id ==> final(self).has_entity(e) == old(self).has_entity(e)
                &&& forall|e: u32|
                    e != id && old(self).has_entity(e) ==> final(self).bundle_of(e) == old(
                        self,
                    ).bundle_of(e) && final(self).signature_of(e) == old(self).signature_of(e)
                &&& final(self).entity_manager == old(self).entity_manager
                &&& final(self).tag_manager == old(self).tag_manager
                &&& final(self).event_bus == old(self).event_bus
            },
    {
        let loc = match self.entity_to_location.get(&id) {
            Some(l) => *l,
            None => {
                return ;
            },
        };
        let a = loc.0;
        let r = loc.1;
        let signature = self.archetypes[a].signature;
        if signature.contains(ComponentKind::Camera) {
            let ghost pre = *self;
            let mut table = self.archetypes.remove(a);
            let ghost tpre = table;
            match &mut table.cameras {
                Some(column) => {
                    column[r] = component;
                },
                None => {
                    proof {
                        assert(false);
                    }
                },
            }
            self.archetypes.insert(a, table);
            proof {
                assert(self.archetypes@ =~= pre.archetypes@.update(a as int, table));
                assert forall|i: int|
                    0 <= i < table.spec_len() && i != r implies table.bundle_at(i)
                    == tpre.bundle_at(i) by {}
                lemma_wf_after_update_row(pre, *self, id, a as int, r as int);
                assert(table.bundle_at(r as int) == (EntityComponents {
                    camera: Some(component),
                    ..tpre.bundle_at(r as int)
                }));
                lemma_signature_noop(signature, ComponentKind::Camera);
                assert(ECS::layout_unchanged(*old(self), *self)) by {
                    assert forall|t: int|
                        0 <= t < old(self).archetypes@.len() implies (
                        #[trigger] self.archetypes@[t]).entity_ids
                            == old(self).archetypes@[t].entity_ids
                            && self.archetypes@[t].signature
                            == old(self).archetypes@[t].signature by {
                        if t != a {
                            assert(self.archetypes@[t] == old(self).archetypes@[t]);
                        }
                    }
                }
            }
        } else {
            let mut bundle = self.remove_row(id);
            let ghost evicted = bundle;
            bundle.camera = Some(component);
            let target = signature.with(ComponentKind::Camera);
            proof {
                assert forall|k: ComponentKind| bundle.slot_filled(k) == target.has(k) by {
                    assert(evicted.slot_filled(k) == signature.has(k));
                }
            }
            self.place_bundle(bundle, target);
        proof {
            let loc = old(self).entity_to_location@[id];
            let table = old(self).archetypes@[loc.0 as int];
            let moved = table.entity_ids@[table.spec_len() - 1];
            if (loc.1 as int) < table.spec_len() - 1 {
                assert(old(self).entity_to_location@.contains_key(moved));
                assert(old(self).entity_to_location@[moved].1 == table.spec_len() - 1);
                assert(moved != id);
            }
            assert(ECS::migrated_locations(*old(self), *self, id));
        }
        }
    }

    /// Detaches entity `id`'s camera component, migrating its row to
    /// the table whose signature drops the kind. If the entity does not
    /// carry the kind, or the id is unknown, nothing changes.
    pub fn remove_camera_component(&mut self, id: u32)
        requires
            old(self).wf(),
        ensures
            final(self).wf(),
            !old(self).has_entity(id) ==> *final(self) == *old(self),
            old(self).has_entity(id) ==> {
                &&& final(self).has_entity(id)
                &&& final(self).bundle_of(id) == (EntityComponents {
                    camera: None,
                    ..old(self).bundle_of(id)
                })
                &&& final(self).signature_of(id) == old(self).signature_of(id).without_spec(
                    ComponentKind::Camera,
                )
                &&& (!old(self).signature_of(id).has(ComponentKind::Camera) ==> *final(self)
                    == *old(self))
                &&& (old(self).signature_of(id).has(ComponentKind::Camera)
                    ==> ECS::migrated_locations(*old(self), *final(self), id))
                &&& forall|e: u32| e != id ==> final(self).has_entity(e) == old(self).has_entity(e)
                &&& forall|e: u32|
                    e != id && old(self).has_entity(e) ==> final(self).bundle_of(e) == old(
                        self,
                    ).bundle_of(e) && final(self).signature_of(e) == old(self).signature_of(e)
                &&& final(self).entity_manager == old(self).entity_manager
                &&& final(self).tag_manager == old(self).tag_manager
                &&& final(self).event_bus == old(self).event_bus
            },
    {
        let loc = match self.entity_to_location.get(&id) {
            Some(l) => *l,
            None => {
                return ;
            },
        };
        let a = loc.0;
        let signature = self.archetypes[a].signature;
        if !signature.contains(ComponentKind::Camera) {
            proof {
                lemma_signature_noop(signature, ComponentKind::Camera);
                assert(ECS::layout_unchanged(*old(self), *self)) by {
                    assert forall|t: int|
                        0 <= t < old(self).archetypes@.len() implies (
                        #[trigger] self.archetypes@[t]).entity_ids
                            == old(self).archetypes@[t].entity_ids
                            && self.archetypes@[t].signature
                            == old(self).archetypes@[t].signature by {
                        if t != a {
                            assert(self.archetypes@[t] == old(self).archetypes@[t]);
                        }
                    }
                }
                old(self).archetypes@[a as int].lemma_rows_match(loc.1 as int);
                assert(old(self).bundle_of(id).camera is None);
                assert(final(self).bundle_of(id) == (EntityComponents {
                    camera: None,
                    ..old(self).bundle_of(id)
                }));
            }
            return ;
        }
        let mut bundle = self.remove_row(id);
        let ghost evicted = bundle;
        bundle.camera = None;
        let target = signature.without(ComponentKind::Camera);
        proof {
            assert forall|k: ComponentKind| bundle.slot_filled(k) == target.has(k) by {
                assert(evicted.slot_filled(k) == signature.has(k));
            }
        }
        self.place_bundle(bundle, target);
        proof {
            let loc = old(self).entity_to_location@[id];
            let table = old(self).archetypes@[loc.0 as int];
            let moved = table.entity_ids@[table.spec_len() - 1];
            if (loc.1 as int) < table.spec_len() - 1 {
                assert(old(self).entity_to_location@.contains_key(moved));
                assert(old(self).entity_to_location@[moved].1 == table.spec_len() - 1);
                assert(moved != id);
            }
            assert(ECS::migrated_locations(*old(self), *self, id));
        }
    }

    /// Attaches or replaces entity `id`'s light component: an existing
    /// value is replaced in place; a new kind migrates the entity's row
    /// to the table whose signature adds the kind. Unknown ids no-op.
    pub fn add_light_component(&mut self, id: u32, component: LightComponent)
        requires
            old(self).wf(),
        ensures
            final(self).wf(),
            !old(self).has_entity(id) ==> *final(self) == *old(self),
            old(self).has_entity(id) ==> {
                &&& final(self).has_entity(id)
                &&& final(self).bundle_of(id) == (EntityComponents {
                    light: Some(component),
                    ..old(self).bundle_of(id)
                })
                &&& final(self).signature_of(id) == old(self).signature_of(id).with_spec(
                    ComponentKind::Light,
                )
                &&& (old(self).signature_of(id).has(ComponentKind::Light)
                    ==> ECS::layout_unchanged(*old(self), *final(self)))
                &&& (!old(self).signature_of(id).has(ComponentKind::Light)
                    ==> ECS::migrated_locations(*old(self), *final(self), id))
                &&& forall|e: u32| e != id ==> final(self).has_entity(e) == old(self).has_entity(e)
                &&& forall|e: u32|
                    e != id && old(self).has_entity(e) ==> final(self).bundle_of(e) == old(
                        self,
                    ).bundle_of(e) && final(self).signature_of(e) == old(self).signature_of(e)
                &&& final(self).entity_manager == old(self).entity_manager
                &&& final(self).tag_manager == old(self).tag_manager
                &&& final(self).event_bus == old(self).event_bus
            },
    {
        let loc = match self.entity_to_location.get(&id) {
            Some(l) => *l,
            None => {
                return ;
            },
        };
        let a = loc.0;
        let r = loc.1;
        let signature = self.archetypes[a].signature;
        if signature.contains(ComponentKind::Light) {
            let ghost pre = *self;
            let mut table = self.archetypes.remove(a);
            let ghost tpre = table;
            match &mut table.lights {
                Some(column) => {
                    column[r] = component;
                },
                None => {
                    proof {
                        assert(false);
                    }
                },
            }
            self.archetypes.insert(a, table);
            proof {
                assert(self.archetypes@ =~= pre.archetypes@.update(a as int, table));
                assert forall|i: int|
                    0 <= i < table.spec_len() && i != r implies table.bundle_at(i)
                    == tpre.bundle_at(i) by {}
                lemma_wf_after_update_row(pre, *self, id, a as int, r as int);
                assert(table.bundle_at(r as int) == (EntityComponents {
                    light: Some(component),
                    ..tpre.bundle_at(r as int)
                }));
                lemma_signature_noop(signature, ComponentKind::Light);
                assert(ECS::layout_unchanged(*old(self), *self)) by {
                    assert forall|t: int|
                        0 <= t < old(self).archetypes@.len() implies (
                        #[trigger] self.archetypes@[t]).entity_ids
                            == old(self).archetypes@[t].entity_ids
                            && self.archetypes@[t].signature
                            == old(self).archetypes@[t].signature by {
                        if t != a {
                            assert(self.archetypes@[t] == old(self).archetypes@[t]);
                        }
                    }
                }
            }
        } else {
            let mut bundle = self.remove_row(id);
            let ghost evicted = bundle;
            bundle.light = Some(component);
            let target = signature.with(ComponentKind::Light);
            proof {
                assert forall|k: ComponentKind| bundle.slot_filled(k) == target.has(k) by {
                    assert(evicted.slot_filled(k) == signature.has(k));
                }
            }
            self.place_bundle(bundle, target);
        proof {
            let loc = old(self).entity_to_location@[id];
            let table = old(self).archetypes@[loc.0 as int];
            let moved = table.entity_ids@[table.spec_len() - 1];
            if (loc.1 as int) < table.spec_len() - 1 {
                assert(old(self).entity_to_location@.contains_key(moved));
                assert(old(self).entity_to_location@[moved].1 == table.spec_len() - 1);
                assert(moved != id);
            }
            assert(ECS::migrated_locations(*old(self), *self, id));
        }
        }
    }

    /// Detaches entity `id`'s light component, migrating its row to
    /// the table whose signature drops the kind. If the entity does not
    /// carry the kind, or the id is unknown, nothing changes.
    pub fn remove_light_component(&mut self, id: u32)
        requires
            old(self).wf(),
        ensures
            final(self).wf(),
            !old(self).has_entity(id) ==> *final(self) == *old(self),
            old(self).has_entity(id) ==> {
                &&& final(self).has_entity(id)
                &&& final(self).bundle_of(id) == (EntityComponents {
                    light: None,
                    ..old(self).bundle_of(id)
                })
                &&& final(self).signature_of(id) == old(self).signature_of(id).without_spec(
                    ComponentKind::Light,
                )
                &&& (!old(self).signature_of(id).has(ComponentKind::Light) ==> *final(self)
                    == *old(self))
                &&& (old(self).signature_of(id).has(ComponentKind::Light)
                    ==> ECS::migrated_locations(*old(self), *final(self), id))
                &&& forall|e: u32| e != id ==> final(self).has_entity(e) == old(self).has_entity(e)
                &&& forall|e: u32|
                    e != id && old(self).has_entity(e) ==> final(self).bundle_of(e) == old(
                        self,
                    ).bundle_of(e) && final(self).signature_of(e) == old(self).signature_of(e)
                &&& final(self).entity_manager == old(self).entity_manager
                &&& final(self).tag_manager == old(self).tag_manager
                &&& final(self).event_bus == old(self).event_bus
            },
    {
        let loc = match self.entity_to_location.get(&id) {
            Some(l) => *l,
            None => {
                return ;
            },
        };
        let a = loc.0;
        let signature = self.archetypes[a].signature;
        if !signature.contains(ComponentKind::Light) {
            proof {
                lemma_signature_noop(signature, ComponentKind::Light);
                assert(ECS::layout_unchanged(*old(self), *self)) by {
                    assert forall|t: int|
                        0 <= t < old(self).archetypes@.len() implies (
                        #[trigger] self.archetypes@[t]).entity_ids
                            == old(self).archetypes@[t].entity_ids
                            && self.archetypes@[t].signature
                            == old(self).archetypes@[t].signature by {
                        if t != a {
                            assert(self.archetypes@[t] == old(self).archetypes@[t]);
                        }
                    }
                }
                old(self).archetypes@[a as int].lemma_rows_match(loc.1 as int);
                assert(old(self).bundle_of(id).light is None);
                assert(final(self).bundle_of(id) == (EntityComponents {
                    light: None,
                    ..old(self).bundle_of(id)
                }));
            }
            return ;
        }
        let mut bundle = self.remove_row(id);
        let ghost evicted = bundle;
        bundle.light = None;
        let target = signature.without(ComponentKind::Light);
        proof {
            assert forall|k: ComponentKind| bundle.slot_filled(k) == target.has(k) by {
                assert(evicted.slot_filled(k) == signature.has(k));
            }
        }
        self.place_bundle(bundle, target);
        proof {
            let loc = old(self).entity_to_location@[id];
            let table = old(self).archetypes@[loc.0 as int];
            let moved = table.entity_ids@[table.spec_len() - 1];
            if (loc.1 as int) < table.spec_len() - 1 {
                assert(old(self).entity_to_location@.contains_key(moved));
                assert(old(self).entity_to_location@[moved].1 == table.spec_len() - 1);
                assert(moved != id);
            }
            assert(ECS::migrated_locations(*old(self), *self, id));
        }
    }

    /// Attaches or replaces entity `id`'s texture component: an existing
    /// value is replaced in place; a new kind migrates the entity's row
    /// to the table whose signature adds the kind. Unknown ids no-op.
    pub fn add_texture_component(&mut self, id: u32, component: TextureComponent)
        requires
            old(self).wf(),
        ensures
            final(self).wf(),
            !old(self).has_entity(id) ==> *final(self) == *old(self),
            old(self).has_entity(id) ==> {
                &&& final(self).has_entity(id)
                &&& final(self).bundle_of(id) == (EntityComponents {
                    texture: Some(component),
                    ..old(self).bundle_of(id)
                })
                &&& final(self).signature_of(id) == old(self).signature_of(id).with_spec(
                    ComponentKind::Texture,
                )
                &&& (old(self).signature_of(id).has(ComponentKind::Texture)
                    ==> ECS::layout_unchanged(*old(self), *final(self)))
                &&& (!old(self).signature_of(id).has(ComponentKind::Texture)
                    ==> ECS::migrated_locations(*old(self), *final(self), id))
                &&& forall|e: u32| e != id ==> final(self).has_entity(e) == old(self).has_entity(e)
                &&& forall|e: u32|
                    e != id && old(self).has_entity(e) ==> final(self).bundle_of(e) == old(
                        self,
                    ).bundle_of(e) && final(self).signature_of(e) == old(self).signature_of(e)
                &&& final(self).entity_manager == old(self).entity_manager
                &&& final(self).tag_manager == old(self).tag_manager
                &&& final(self).event_bus == old(self).event_bus
            },
    {
        let loc = match self.entity_to_location.get(&id) {
            Some(l) => *l,
            None => {
                return ;
            },
        };
        let a = loc.0;
        let r = loc.1;
        let signature = self.archetypes[a].signature;
        if signature.contains(ComponentKind::Texture) {
            let ghost pre = *self;
            let mut table = self.archetypes.remove(a);
            let ghost tpre = table;
            match &mut table.textures {
                Some(column) => {
                    column[r] = component;
                },
                None => {
                    proof {
                        assert(false);
                    }
                },
            }
            self.archetypes.insert(a, table);
            proof {
                assert(self.archetypes@ =~= pre.archetypes@.update(a as int, table));
                assert forall|i: int|
                    0 <= i < table.spec_len() && i != r implies table.bundle_at(i)
                    == tpre.bundle_at(i) by {}
                lemma_wf_after_update_row(pre, *self, id, a as int, r as int);
                assert(table.bundle_at(r as int) == (EntityComponents {
                    texture: Some(component),
                    ..tpre.bundle_at(r as int)
                }));
                lemma_signature_noop(signature, ComponentKind::Texture);
                assert(ECS::layout_unchanged(*old(self), *self)) by {
                    assert forall|t: int|
                        0 <= t < old(self).archetypes@.len() implies (
                        #[trigger] self.archetypes@[t]).entity_ids
                            == old(self).archetypes@[t].entity_ids
                            && self.archetypes@[t].signature
                            == old(self).archetypes@[t].signature by {
                        if t != a {
                            assert(self.archetypes@[t] == old(self).archetypes@[t]);
                        }
                    }
                }
            }
        } else {
            let mut bundle = self.remove_row(id);
            let ghost evicted = bundle;
            bundle.texture = Some(component);
            let target = signature.with(ComponentKind::Texture);
            proof {
                assert forall|k: ComponentKind| bundle.slot_filled(k) == target.has(k) by {
                    assert(evicted.slot_filled(k) == signature.has(k));
                }
            }
            self.place_bundle(bundle, target);
        proof {
            let loc = old(self).entity_to_location@[id];
            let table = old(self).archetypes@[loc.0 as int];
            let moved = table.entity_ids@[table.spec_len() - 1];
            if (loc.1 as int) < table.spec_len() - 1 {
                assert(old(self).entity_to_location@.contains_key(moved));
                assert(old(self).entity_to_location@[moved].1 == table.spec_len() - 1);
                assert(moved != id);
            }
            assert(ECS::migrated_locations(*old(self), *self, id));
        }
        }
    }

    /// Detaches entity `id`'s texture component, migrating its row to
    /// the table whose signature drops the kind. If the entity does not
    /// carry the kind, or the id is unknown, nothing changes.
    pub fn remove_texture_component(&mut self, id: u32)
        requires
            old(self).wf(),
        ensures
            final(self).wf(),
            !old(self).has_entity(id) ==> *final(self) == *old(self),
            old(self).has_entity(id) ==> {
                &&& final(self).has_entity(id)
                &&& final(self).bundle_of(id) == (EntityComponents {
                    texture: None,
                    ..old(self).bundle_of(id)
                })
                &&& final(self).signature_of(id) == old(self).signature_of(id).without_spec(
                    ComponentKind::Texture,
                )
                &&& (!old(self).signature_of(id).has(ComponentKind::Texture) ==> *final(self)
                    == *old(self))
                &&& (old(self).signature_of(id).has(ComponentKind::Texture)
                    ==> ECS::migrated_locations(*old(self), *final(self), id))
                &&& forall|e: u32| e != id ==> final(self).has_entity(e) == old(self).has_entity(e)
                &&& forall|e: u32|
                    e != id && old(self).has_entity(e) ==> final(self).bundle_of(e) == old(
                        self,
                    ).bundle_of(e) && final(self).signature_of(e) == old(self).signature_of(e)
                &&& final(self).entity_manager == old(self).entity_manager
                &&& final(self).tag_manager == old(self).tag_manager
                &&& final(self).event_bus == old(self).event_bus
            },
    {
        let loc = match self.entity_to_location.get(&id) {
            Some(l) => *l,
            None => {
                return ;
            },
        };
        let a = loc.0;
        let signature = self.archetypes[a].signature;
        if !signature.contains(ComponentKind::Texture) {
            proof {
                lemma_signature_noop(signature, ComponentKind::Texture);
                assert(ECS::layout_unchanged(*old(self), *self)) by {
                    assert forall|t: int|
                        0 <= t < old(self).archetypes@.len() implies (
                        #[trigger] self.archetypes@[t]).entity_ids
                            == old(self).archetypes@[t].entity_ids
                            && self.archetypes@[t].signature
                            == old(self).archetypes@[t].signature by {
                        if t != a {
                            assert(self.archetypes@[t] == old(self).archetypes@[t]);
                        }
                    }
                }
                old(self).archetypes@[a as int].lemma_rows_match(loc.1 as int);
                assert(old(self).bundle_of(id).texture is None);
                assert(final(self).bundle_of(id) == (EntityComponents {
                    texture: None,
                    ..old(self).bundle_of(id)
                }));
            }
            return ;
        }
        let mut bundle = self.remove_row(id);
        let ghost evicted = bundle;
        bundle.texture = None;
        let target = signature.without(ComponentKind::Texture);
        proof {
            assert forall|k: ComponentKind| bundle.slot_filled(k) == target.has(k) by {
                assert(evicted.slot_filled(k) == signature.has(k));
            }
        }
        self.place_bundle(bundle, target);
        proof {
            let loc = old(self).entity_to_location@[id];
            let table = old(self).archetypes@[loc.0 as int];
            let moved = table.entity_ids@[table.spec_len() - 1];
            if (loc.1 as int) < table.spec_len() - 1 {
                assert(old(self).entity_to_location@.contains_key(moved));
                assert(old(self).entity_to_location@[moved].1 == table.spec_len() - 1);
                assert(moved != id);
            }
            assert(ECS::migrated_locations(*old(self), *self, id));
        }
    }

    /// Attaches or replaces entity `id`'s terrain component: an existing
    /// value is replaced in place; a new kind migrates the entity's row
    /// to the table whose signature adds the kind. Unknown ids no-op.
    pub fn add_terrain_component(&mut self, id: u32, component: TerrainComponent)
        requires
            old(self).wf(),
        ensures
            final(self).wf(),
            !old(self).has_entity(id) ==> *final(self) == *old(self),
            old(self).has_entity(id) ==> {
                &&& final(self).has_entity(id)
                &&& final(self).bundle_of(id) == (EntityComponents {
                    terrain: Some(component),
                    ..old(self).bundle_of(id)
                })
                &&& final(self).signature_of(id) == old(self).signature_of(id).with_spec(
                    ComponentKind::Terrain,
                )
                &&& (old(self).signature_of(id).has(ComponentKind::Terrain)
                    ==> ECS::layout_unchanged(*old(self), *final(self)))
                &&& (!old(self).signature_of(id).has(ComponentKind::Terrain)
                    ==> ECS::migrated_locations(*old(self), *final(self), id))
                &&& forall|e: u32| e != id ==> final(self).has_entity(e) == old(self).has_entity(e)
                &&& forall|e: u32|
                    e != id && old(self).has_entity(e) ==> final(self).bundle_of(e) == old(
                        self,
                    ).bundle_of(e) && final(self).signature_of(e) == old(self).signature_of(e)
                &&& final(self).entity_manager == old(self).entity_manager
                &&& final(self).tag_manager == old(self).tag_manager
                &&& final(self).event_bus == old(self).event_bus
            },
    {
        let loc = match self.entity_to_location.get(&id) {
            Some(l) => *l,
            None => {
                return ;
            },
        };
        let a = loc.0;
        let r = loc.1;
        let signature = self.archetypes[a].signature;
        if signature.contains(ComponentKind::Terrain) {
            let ghost pre = *self;
            let mut table = self.archetypes.remove(a);
            let ghost tpre = table;
            match &mut table.terrains {
                Some(column) => {
                    column[r] = component;
                },
                None => {
                    proof {
                        assert(false);
                    }
                },
            }
            self.archetypes.insert(a, table);
            proof {
                assert(self.archetypes@ =~= pre.archetypes@.update(a as int, table));
                assert forall|i: int|
                    0 <= i < table.spec_len() && i != r implies table.bundle_at(i)
                    == tpre.bundle_at(i) by {}
                lemma_wf_after_update_row(pre, *self, id, a as int, r as int);
                assert(table.bundle_at(r as int) == (EntityComponents {
                    terrain: Some(component),
                    ..tpre.bundle_at(r as int)
                }));
                lemma_signature_noop(signature, ComponentKind::Terrain);
                assert(ECS::layout_unchanged(*old(self), *self)) by {
                    assert forall|t: int|
                        0 <= t < old(self).archetypes@.len() implies (
                        #[trigger] self.archetypes@[t]).entity_ids
                            == old(self).archetypes@[t].entity_ids
                            && self.archetypes@[t].signature
                            == old(self).archetypes@[t].signature by {
                        if t != a {
                            assert(self.archetypes@[t] == old(self).archetypes@[t]);
                        }
                    }
                }
            }
        } else {
            let mut bundle = self.remove_row(id);
            let ghost evicted = bundle;
            bundle.terrain = Some(component);
            let target = signature.with(ComponentKind::Terrain);
            proof {
                assert forall|k: ComponentKind| bundle.slot_filled(k) == target.has(k) by {
                    assert(evicted.slot_filled(k) == signature.has(k));
                }
            }
            self.place_bundle(bundle, target);
        proof {
            let loc = old(self).entity_to_location@[id];
            let table = old(self).archetypes@[loc.0 as int];
            let moved = table.entity_ids@[table.spec_len() - 1];
            if (loc.1 as int) < table.spec_len() - 1 {
                assert(old(self).entity_to_location@.contains_key(moved));
                assert(old(self).entity_to_location@[moved].1 == table.spec_len() - 1);
                assert(moved != id);
            }
            assert(ECS::migrated_locations(*old(self), *self, id));
        }
        }
    }

    /// Detaches entity `id`'s terrain component, migrating its row to
    /// the table whose signature drops the kind. If the entity does not
    /// carry the kind, or the id is unknown, nothing changes.
    pub fn remove_terrain_component(&mut self, id: u32)
        requires
            old(self).wf(),
        ensures
            final(self).wf(),
            !old(self).has_entity(id) ==> *final(self) == *old(self),
            old(self).has_entity(id) ==> {
                &&& final(self).has_entity(id)
                &&& final(self).bundle_of(id) == (EntityComponents {
                    terrain: None,
                    ..old(self).bundle_of(id)
                })
                &&& final(self).signature_of(id) == old(self).signature_of(id).without_spec(
                    ComponentKind::Terrain,
                )
                &&& (!old(self).signature_of(id).has(ComponentKind::Terrain) ==> *final(self)
                    == *old(self))
                &&& (old(self).signature_of(id).has(ComponentKind::Terrain)
                    ==> ECS::migrated_locations(*old(self), *final(self), id))
                &&& forall|e: u32| e != id ==> final(self).has_entity(e) == old(self).has_entity(e)
                &&& forall|e: u32|
                    e != id && old(self).has_entity(e) ==> final(self).bundle_of(e) == old(
                        self,
                    ).bundle_of(e) && final(self).signature_of(e) == old(self).signature_of(e)
                &&& final(self).entity_manager == old(self).entity_manager
                &&& final(self).tag_manager == old(self).tag_manager
                &&& final(self).event_bus == old(self).event_bus
            },
    {
        let loc = match self.entity_to_location.get(&id) {
            Some(l) => *l,
            None => {
                return ;
            },
        };
        let a = loc.0;
        let signature = self.archetypes[a].signature;
        if !signature.contains(ComponentKind::Terrain) {
            proof {
                lemma_signature_noop(signature, ComponentKind::Terrain);
                assert(ECS::layout_unchanged(*old(self), *self)) by {
                    assert forall|t: int|
                        0 <= t < old(self).archetypes@.len() implies (
                        #[trigger] self.archetypes@[t]).entity_ids
                            == old(self).archetypes@[t].entity_ids
                            && self.archetypes@[t].signature
                            == old(self).archetypes@[t].signature by {
                        if t != a {
                            assert(self.archetypes@[t] == old(self).archetypes@[t]);
                        }
                    }
                }
                old(self).archetypes@[a as int].lemma_rows_match(loc.1 as int);
                assert(old(self).bundle_of(id).terrain is None);
                assert(final(self).bundle_of(id) == (EntityComponents {
                    terrain: None,
                    ..old(self).bundle_of(id)
                }));
            }
            return ;
        }
        let mut bundle = self.remove_row(id);
        let ghost evicted = bundle;
        bundle.terrain = None;
        let target = signature.without(ComponentKind::Terrain);
        proof {
            assert forall|k: ComponentKind| bundle.slot_filled(k) == target.has(k) by {
                assert(evicted.slot_filled(k) == signature.has(k));
            }
        }
        self.place_bundle(bundle, target);
        proof {
            let loc = old(self).entity_to_location@[id];
            let table = old(self).archetypes@[loc.0 as int];
            let moved = table.entity_ids@[table.spec_len() - 1];
            if (loc.1 as int) < table.spec_len() - 1 {
                assert(old(self).entity_to_location@.contains_key(moved));
                assert(old(self).entity_to_location@[moved].1 == table.spec_len() - 1);
                assert(moved != id);
            }
            assert(ECS::migrated_locations(*old(self), *self, id));
        }
    }

    /// Attaches or replaces entity `id`'s script component: an existing
    /// value is replaced in place; a new kind migrates the entity's row
    /// to the table whose signature adds the kind. Unknown ids no-op.
    pub fn add_script_component(&mut self, id: u32, component: ScriptComponent)
        requires
            old(self).wf(),
        ensures
            final(self).wf(),
            !old(self).has_entity(id) ==> *final(self) == *old(self),
            old(self).has_entity(id) ==> {
                &&& final(self).has_entity(id)
                &&& final(self).bundle_of(id) == (EntityComponents {
                    script: Some(component),
                    ..old(self).bundle_of(id)
                })
                &&& final(self).signature_of(id) == old(self).signature_of(id).with_spec(
                    ComponentKind::Script,
                )
                &&& (old(self).signature_of(id).has(ComponentKind::Script)
                    ==> ECS::layout_unchanged(*old(self), *final(self)))
                &&& (!old(self).signature_of(id).has(ComponentKind::Script)
                    ==> ECS::migrated_locations(*old(self), *final(self), id))
                &&& forall|e: u32| e != id ==> final(self).has_entity(e) == old(self).has_entity(e)
                &&& forall|e: u32|
                    e != id && old(self).has_entity(e) ==> final(self).bundle_of(e) == old(
                        self,
                    ).bundle_of(e) && final(self).signature_of(e) == old(self).signature_of(e)
                &&& final(self).entity_manager == old(self).entity_manager
                &&& final(self).tag_manager == old(self).tag_manager
                &&& final(self).event_bus == old(self).event_bus
            },
    {
        let loc = match self.entity_to_location.get(&id) {
            Some(l) => *l,
            None => {
                return ;
            },
        };
        let a = loc.0;
        let r = loc.1;
        let signature = self.archetypes[a].signature;
        if signature.contains(ComponentKind::Script) {
            let ghost pre = *self;
            let mut table = self.archetypes.remove(a);
            let ghost tpre = table;
            match &mut table.scripts {
                Some(column) => {
                    column[r] = component;
                },
                None => {
                    proof {
                        assert(false);
                    }
                },
            }
            self.archetypes.insert(a, table);
            proof {
                assert(self.archetypes@ =~= pre.archetypes@.update(a as int, table));
                assert forall|i: int|
                    0 <= i < table.spec_len() && i != r implies table.bundle_at(i)
                    == tpre.bundle_at(i) by {}
                lemma_wf_after_update_row(pre, *self, id, a as int, r as int);
                assert(table.bundle_at(r as int) == (EntityComponents {
                    script: Some(component),
                    ..tpre.bundle_at(r as int)
                }));
                lemma_signature_noop(signature, ComponentKind::Script);
                assert(ECS::layout_unchanged(*old(self), *self)) by {
                    assert forall|t: int|
                        0 <= t < old(self).archetypes@.len() implies (
                        #[trigger] self.archetypes@[t]).entity_ids
                            == old(self).archetypes@[t].entity_ids
                            && self.archetypes@[t].signature
                            == old(self).archetypes@[t].signature by {
                        if t != a {
                            assert(self.archetypes@[t] == old(self).archetypes@[t]);
                        }
                    }
                }
            }
        } else {
            let mut bundle = self.remove_row(id);
            let ghost evicted = bundle;
            bundle.script = Some(component);
            let target = signature.with(ComponentKind::Script);
            proof {
                assert forall|k: ComponentKind| bundle.slot_filled(k) == target.has(k) by {
                    assert(evicted.slot_filled(k) == signature.has(k));
                }
            }
            self.place_bundle(bundle, target);
        proof {
            let loc = old(self).entity_to_location@[id];
            let table = old(self).archetypes@[loc.0 as int];
            let moved = table.entity_ids@[table.spec_len() - 1];
            if (loc.1 as int) < table.spec_len() - 1 {
                assert(old(self).entity_to_location@.contains_key(moved));
                assert(old(self).entity_to_location@[moved].1 == table.spec_len() - 1);
                assert(moved != id);
            }
            assert(ECS::migrated_locations(*old(self), *self, id));
        }
        }
    }

    /// Detaches entity `id`'s script component, migrating its row to
    /// the table whose signature drops the kind. If the entity does not
    /// carry the kind, or the id is unknown, nothing changes.
    pub fn remove_script_component(&mut self, id: u32)
        requires
            old(self).wf(),
        ensures
            final(self).wf(),
            !old(self).has_entity(id) ==> *final(self) == *old(self),
            old(self).has_entity(id) ==> {
                &&& final(self).has_entity(id)
                &&& final(self).bundle_of(id) == (EntityComponents {
                    script: None,
                    ..old(self).bundle_of(id)
                })
                &&& final(self).signature_of(id) == old(self).signature_of(id).without_spec(
                    ComponentKind::Script,
                )
                &&& (!old(self).signature_of(id).has(ComponentKind::Script) ==> *final(self)
                    == *old(self))
                &&& (old(self).signature_of(id).has(ComponentKind::Script)
                    ==> ECS::migrated_locations(*old(self), *final(self), id))
                &&& forall|e: u32| e != id ==> final(self).has_entity(e) == old(self).has_entity(e)
                &&& forall|e: u32|
                    e != id && old(self).has_entity(e) ==> final(self).bundle_of(e) == old(
                        self,
                    ).bundle_of(e) && final(self).signature_of(e) == old(self).signature_of(e)
                &&& final(self).entity_manager == old(self).entity_manager
                &&& final(self).tag_manager == old(self).tag_manager
                &&& final(self).event_bus == old(self).event_bus
            },
    {
        let loc = match self.entity_to_location.get(&id) {
            Some(l) => *l,
            None => {
                return ;
            },
        };
        let a = loc.0;
        let signature = self.archetypes[a].signature;
        if !signature.contains(ComponentKind::Script) {
            proof {
                lemma_signature_noop(signature, ComponentKind::Script);
                assert(ECS::layout_unchanged(*old(self), *self)) by {
                    assert forall|t: int|
                        0 <= t < old(self).archetypes@.len() implies (
                        #[trigger] self.archetypes@[t]).entity_ids
                            == old(self).archetypes@[t].entity_ids
                            && self.archetypes@[t].signature
                            == old(self).archetypes@[t].signature by {
                        if t != a {
                            assert(self.archetypes@[t] == old(self).archetypes@[t]);
                        }
                    }
                }
                old(self).archetypes@[a as int].lemma_rows_match(loc.1 as int);
                assert(old(self).bundle_of(id).script is None);
                assert(final(self).bundle_of(id) == (EntityComponents {
                    script: None,
                    ..old(self).bundle_of(id)
                }));
            }
            return ;
        }
        let mut bundle = self.remove_row(id);
        let ghost evicted = bundle;
        bundle.script = None;
        let target = signature.without(ComponentKind::Script);
        proof {
            assert forall|k: ComponentKind| bundle.slot_filled(k) == target.has(k) by {
                assert(evicted.slot_filled(k) == signature.has(k));
            }
        }
        self.place_bundle(bundle, target);
        proof {
            let loc = old(self).entity_to_location@[id];
            let table = old(self).archetypes@[loc.0 as int];
            let moved = table.entity_ids@[table.spec_len() - 1];
            if (loc.1 as int) < table.spec_len() - 1 {
                assert(old(self).entity_to_location@.contains_key(moved));
                assert(old(self).entity_to_location@[moved].1 == table.spec_len() - 1);
                assert(moved != id);
            }
            assert(ECS::migrated_locations(*old(self), *self, id));
        }
    }

    /// Attaches or replaces entity `id`'s physics component: an existing
    /// value is replaced in place; a new kind migrates the entity's row
    /// to the table whose signature adds the kind. Unknown ids no-op.
    pub fn add_physics_component(&mut self, id: u32, component: PhysicsComponent)
        requires
            old(self).wf(),
        ensures
            final(self).wf(),
            !old(self).has_entity(id) ==> *final(self) == *old(self),
            old(self).has_entity(id) ==> {
                &&& final(self).has_entity(id)
                &&& final(self).bundle_of(id) == (EntityComponents {
                    physics: Some(component),
                    ..old(self).bundle_of(id)
                })
                &&& final(self).signature_of(id) == old(self).signature_of(id).with_spec(
                    ComponentKind::Physics,
                )
                &&& (old(self).signature_of(id).has(ComponentKind::Physics)
                    ==> ECS::layout_unchanged(*old(self), *final(self)))
                &&& (!old(self).signature_of(id).has(ComponentKind::Physics)
                    ==> ECS::migrated_locations(*old(self), *final(self), id))
                &&& forall|e: u32| e != id ==> final(self).has_entity(e) == old(self).has_entity(e)
                &&& forall|e: u32|
                    e != id && old(self).has_entity(e) ==> final(self).bundle_of(e) == old(
                        self,
                    ).bundle_of(e) && final(self).signature_of(e) == old(self).signature_of(e)
                &&& final(self).entity_manager == old(self).entity_manager
                &&& final(self).tag_manager == old(self).tag_manager
                &&& final(self).event_bus == old(self).event_bus
            },
    {
        let loc = match self.entity_to_location.get(&id) {
            Some(l) => *l,
            None => {
                return ;
            },
        };
        let a = loc.0;
        let r = loc.1;
        let signature = self.archetypes[a].signature;
        if signature.contains(ComponentKind::Physics) {
            let ghost pre = *self;
            let mut table = self.archetypes.remove(a);
            let ghost tpre = table;
            match &mut table.physics {
                Some(column) => {
                    column[r] = component;
                },
                None => {
                    proof {
                        assert(false);
                    }
                },
            }
            self.archetypes.insert(a, table);
            proof {
                assert(self.archetypes@ =~= pre.archetypes@.update(a as int, table));
                assert forall|i: int|
                    0 <= i < table.spec_len() && i != r implies table.bundle_at(i)
                    == tpre.bundle_at(i) by {}
                lemma_wf_after_update_row(pre, *self, id, a as int, r as int);
                assert(table.bundle_at(r as int) == (EntityComponents {
                    physics: Some(component),
                    ..tpre.bundle_at(r as int)
                }));
                lemma_signature_noop(signature, ComponentKind::Physics);
                assert(ECS::layout_unchanged(*old(self), *self)) by {
                    assert forall|t: int|
                        0 <= t < old(self).archetypes@.len() implies (
                        #[trigger] self.archetypes@[t]).entity_ids
                            == old(self).archetypes@[t].entity_ids
                            && self.archetypes@[t].signature
                            == old(self).archetypes@[t].signature by {
                        if t != a {
                            assert(self.archetypes@[t] == old(self).archetypes@[t]);
                        }
                    }
                }
            }
        } else {
            let mut bundle = self.remove_row(id);
            let ghost evicted = bundle;
            bundle.physics = Some(component);
            let target = signature.with(ComponentKind::Physics);
            proof {
                assert forall|k: ComponentKind| bundle.slot_filled(k) == target.has(k) by {
                    assert(evicted.slot_filled(k) == signature.has(k));
                }
            }
            self.place_bundle(bundle, target);
        proof {
            let loc = old(self).entity_to_location@[id];
            let table = old(self).archetypes@[loc.0 as int];
            let moved = table.entity_ids@[table.spec_len() - 1];
            if (loc.1 as int) < table.spec_len() - 1 {
                assert(old(self).entity_to_location@.contains_key(moved));
                assert(old(self).entity_to_location@[moved].1 == table.spec_len() - 1);
                assert(moved != id);
            }
            assert(ECS::migrated_locations(*old(self), *self, id));
        }
        }
    }

    /// Detaches entity `id`'s physics component, migrating its row to
    /// the table whose signature drops the kind. If the entity does not
    /// carry the kind, or the id is unknown, nothing changes.
    pub fn remove_physics_component(&mut self, id: u32)
        requires
            old(self).wf(),
        ensures
            final(self).wf(),
            !old(self).has_entity(id) ==> *final(self) == *old(self),
            old(self).has_entity(id) ==> {
                &&& final(self).has_entity(id)
                &&& final(self).bundle_of(id) == (EntityComponents {
                    physics: None,
                    ..old(self).bundle_of(id)
                })
                &&& final(self).signature_of(id) == old(self).signature_of(id).without_spec(
                    ComponentKind::Physics,
                )
                &&& (!old(self).signature_of(id).has(ComponentKind::Physics) ==> *final(self)
                    == *old(self))
                &&& (old(self).signature_of(id).has(ComponentKind::Physics)
                    ==> ECS::migrated_locations(*old(self), *final(self), id))
                &&& forall|e: u32| e != id ==> final(self).has_entity(e) == old(self).has_entity(e)
                &&& forall|e: u32|
                    e != id && old(self).has_entity(e) ==> final(self).bundle_of(e) == old(
                        self,
                    ).bundle_of(e) && final(self).signature_of(e) == old(self).signature_of(e)
                &&& final(self).entity_manager == old(self).entity_manager
                &&& final(self).tag_manager == old(self).tag_manager
                &&& final(self).event_bus == old(self).event_bus
            },
    {
        let loc = match self.entity_to_location.get(&id) {
            Some(l) => *l,
            None => {
                return ;
            },
        };
        let a = loc.0;
        let signature = self.archetypes[a].signature;
        if !signature.contains(ComponentKind::Physics) {
            proof {
                lemma_signature_noop(signature, ComponentKind::Physics);
                assert(ECS::layout_unchanged(*old(self), *self)) by {
                    assert forall|t: int|
                        0 <= t < old(self).archetypes@.len() implies (
                        #[trigger] self.archetypes@[t]).entity_ids
                            == old(self).archetypes@[t].entity_ids
                            && self.archetypes@[t].signature
                            == old(self).archetypes@[t].signature by {
                        if t != a {
                            assert(self.archetypes@[t] == old(self).archetypes@[t]);
                        }
                    }
                }
                old(self).archetypes@[a as int].lemma_rows_match(loc.1 as int);
                assert(old(self).bundle_of(id).physics is None);
                assert(final(self).bundle_of(id) == (EntityComponents {
                    physics: None,
                    ..old(self).bundle_of(id)
                }));
            }
            return ;
        }
        let mut bundle = self.remove_row(id);
        let ghost evicted = bundle;
        bundle.physics = None;
        let target = signature.without(ComponentKind::Physics);
        proof {
            assert forall|k: ComponentKind| bundle.slot_filled(k) == target.has(k) by {
                assert(evicted.slot_filled(k) == signature.has(k));
            }
        }
        self.place_bundle(bundle, target);
        proof {
            let loc = old(self).entity_to_location@[id];
            let table = old(self).archetypes@[loc.0 as int];
            let moved = table.entity_ids@[table.spec_len() - 1];
            if (loc.1 as int) < table.spec_len() - 1 {
                assert(old(self).entity_to_location@.contains_key(moved));
                assert(old(self).entity_to_location@[moved].1 == table.spec_len() - 1);
                assert(moved != id);
            }
            assert(ECS::migrated_locations(*old(self), *self, id));
        }
    }

    /// Attaches or replaces entity `id`'s hierarchy component: an existing
    /// value is replaced in place; a new kind migrates the entity's row
    /// to the table whose signature adds the kind. Unknown ids no-op.
    pub fn add_hierarchy_component(&mut self, id: u32, component: HierarchyComponent)
        requires
            old(self).wf(),
        ensures
            final(self).wf(),
            !old(self).has_entity(id) ==> *final(self) == *old(self),
            old(self).has_entity(id) ==> {
                &&& final(self).has_entity(id)
                &&& final(self).bundle_of(id) == (EntityComponents {
                    hierarchy: Some(component),
                    ..old(self).bundle_of(id)
                })
                &&& final(self).signature_of(id) == old(self).signature_of(id).with_spec(
                    ComponentKind::Hierarchy,
                )
                &&& (old(self).signature_of(id).has(ComponentKind::Hierarchy)
                    ==> ECS::layout_unchanged(*old(self), *final(self)))
                &&& (!old(self).signature_of(id).has(ComponentKind::Hierarchy)
                    ==> ECS::migrated_locations(*old(self), *final(self), id))
                &&& forall|e: u32| e != id ==> final(self).has_entity(e) == old(self).has_entity(e)
                &&& forall|e: u32|
                    e != id && old(self).has_entity(e) ==> final(self).bundle_of(e) == old(
                        self,
                    ).bundle_of(e) && final(self).signature_of(e) == old(self).signature_of(e)
                &&& final(self).entity_manager == old(self).entity_manager
                &&& final(self).tag_manager == old(self).tag_manager
                &&& final(self).event_bus == old(self).event_bus
            },
    {
        let loc = match self.entity_to_location.get(&id) {
            Some(l) => *l,
            None => {
                return ;
            },
        };
        let a = loc.0;
        let r = loc.1;
        let signature = self.archetypes[a].signature;
        if signature.contains(ComponentKind::Hierarchy) {
            let ghost pre = *self;
            let mut table = self.archetypes.remove(a);
            let ghost tpre = table;
            match &mut table.hierarchies {
                Some(column) => {
                    column[r] = component;
                },
                None => {
                    proof {
                        assert(false);
                    }
                },
            }
            self.archetypes.insert(a, table);
            proof {
                assert(self.archetypes@ =~= pre.archetypes@.update(a as int, table));
                assert forall|i: int|
                    0 <= i < table.spec_len() && i != r implies table.bundle_at(i)
                    == tpre.bundle_at(i) by {}
                lemma_wf_after_update_row(pre, *self, id, a as int, r as int);
                assert(table.bundle_at(r as int) == (EntityComponents {
                    hierarchy: Some(component),
                    ..tpre.bundle_at(r as int)
                }));
                lemma_signature_noop(signature, ComponentKind::Hierarchy);
                assert(ECS::layout_unchanged(*old(self), *self)) by {
                    assert forall|t: int|
                        0 <= t < old(self).archetypes@.len() implies (
                        #[trigger] self.archetypes@[t]).entity_ids
                            == old(self).archetypes@[t].entity_ids
                            && self.archetypes@[t].signature
                            == old(self).archetypes@[t].signature by {
                        if t != a {
                            assert(self.archetypes@[t] == old(self).archetypes@[t]);
                        }
                    }
                }
            }
        } else {
            let mut bundle = self.remove_row(id);
            let ghost evicted = bundle;
            bundle.hierarchy = Some(component);
            let target = signature.with(ComponentKind::Hierarchy);
            proof {
                assert forall|k: ComponentKind| bundle.slot_filled(k) == target.has(k) by {
                    assert(evicted.slot_filled(k) == signature.has(k));
                }
            }
            self.place_bundle(bundle, target);
        proof {
            let loc = old(self).entity_to_location@[id];
            let table = old(self).archetypes@[loc.0 as int];
            let moved = table.entity_ids@[table.spec_len() - 1];
            if (loc.1 as int) < table.spec_len() - 1 {
                assert(old(self).entity_to_location@.contains_key(moved));
                assert(old(self).entity_to_location@[moved].1 == table.spec_len() - 1);
                assert(moved != id);
            }
            assert(ECS::migrated_locations(*old(self), *self, id));
        }
        }
    }

    /// Detaches entity `id`'s hierarchy component, migrating its row to
    /// the table whose signature drops the kind. If the entity does not
    /// carry the kind, or the id is unknown, nothing changes.
    pub fn remove_hierarchy_component(&mut self, id: u32)
        requires
            old(self).wf(),
        ensures
            final(self).wf(),
            !old(self).has_entity(id) ==> *final(self) == *old(self),
            old(self).has_entity(id) ==> {
                &&& final(self).has_entity(id)
                &&& final(self).bundle_of(id) == (EntityComponents {
                    hierarchy: None,
                    ..old(self).bundle_of(id)
                })
                &&& final(self).signature_of(id) == old(self).signature_of(id).without_spec(
                    ComponentKind::Hierarchy,
                )
                &&& (!old(self).signature_of(id).has(ComponentKind::Hierarchy) ==> *final(self)
                    == *old(self))
                &&& (old(self).signature_of(id).has(ComponentKind::Hierarchy)
                    ==> ECS::migrated_locations(*old(self), *final(self), id))
                &&& forall|e: u32| e != id ==> final(self).has_entity(e) == old(self).has_entity(e)
                &&& forall|e: u32|
                    e != id && old(self).has_entity(e) ==> final(self).bundle_of(e) == old(
                        self,
                    ).bundle_of(e) && final(self).signature_of(e) == old(self).signature_of(e)
                &&& final(self).entity_manager == old(self).entity_manager
                &&& final(self).tag_manager == old(self).tag_manager
                &&& final(self).event_bus == old(self).event_bus
            },
    {
        let loc = match self.entity_to_location.get(&id) {
            Some(l) => *l,
            None => {
                return ;
            },
        };
        let a = loc.0;
        let signature = self.archetypes[a].signature;
        if !signature.contains(ComponentKind::Hierarchy) {
            proof {
                lemma_signature_noop(signature, ComponentKind::Hierarchy);
                assert(ECS::layout_unchanged(*old(self), *self)) by {
                    assert forall|t: int|
                        0 <= t < old(self).archetypes@.len() implies (
                        #[trigger] self.archetypes@[t]).entity_ids
                            == old(self).archetypes@[t].entity_ids
                            && self.archetypes@[t].signature
                            == old(self).archetypes@[t].signature by {
                        if t != a {
                            assert(self.archetypes@[t] == old(self).archetypes@[t]);
                        }
                    }
                }
                old(self).archetypes@[a as int].lemma_rows_match(loc.1 as int);
                assert(old(self).bundle_of(id).hierarchy is None);
                assert(final(self).bundle_of(id) == (EntityComponents {
                    hierarchy: None,
                    ..old(self).bundle_of(id)
                }));
            }
            return ;
        }
        let mut bundle = self.remove_row(id);
        let ghost evicted = bundle;
        bundle.hierarchy = None;
        let target = signature.without(ComponentKind::Hierarchy);
        proof {
            assert forall|k: ComponentKind| bundle.slot_filled(k) == target.has(k) by {
                assert(evicted.slot_filled(k) == signature.has(k));
            }
        }
        self.place_bundle(bundle, target);
        proof {
            let loc = old(self).entity_to_location@[id];
            let table = old(self).archetypes@[loc.0 as int];
            let moved = table.entity_ids@[table.spec_len() - 1];
            if (loc.1 as int) < table.spec_len() - 1 {
                assert(old(self).entity_to_location@.contains_key(moved));
                assert(old(self).entity_to_location@[moved].1 == table.spec_len() - 1);
                assert(moved != id);
            }
            assert(ECS::migrated_locations(*old(self), *self, id));
        }
    }

    /// Attaches or replaces entity `id`'s attributes component: an existing
    /// value is replaced in place; a new kind migrates the entity's row
    /// to the table whose signature adds the kind. Unknown ids no-op.
    pub fn add_attributes_component(&mut self, id: u32, component: AttributesComponent)
        requires
            old(self).wf(),
        ensures
            final(self).wf(),
            !old(self).has_entity(id) ==> *final(self) == *old(self),
            old(self).has_entity(id) ==> {
                &&& final(self).has_entity(id)
                &&& final(self).bundle_of(id) == (EntityComponents {
                    attributes: Some(component),
                    ..old(self).bundle_of(id)
                })
                &&& final(self).signature_of(id) == old(self).signature_of(id).with_spec(
                    ComponentKind::Attributes,
                )
                &&& (old(self).signature_of(id).has(ComponentKind::Attributes)
                    ==> ECS::layout_unchanged(*old(self), *final(self)))
                &&& (!old(self).signature_of(id).has(ComponentKind::Attributes)
                    ==> ECS::migrated_locations(*old(self), *final(self), id))
                &&& forall|e: u32| e != id ==> final(self).has_entity(e) == old(self).has_entity(e)
                &&& forall|e: u32|
                    e != id && old(self).has_entity(e) ==> final(self).bundle_of(e) == old(
                        self,
                    ).bundle_of(e) && final(self).signature_of(e) == old(self).signature_of(e)
                &&& final(self).entity_manager == old(self).entity_manager
                &&& final(self).tag_manager == old(self).tag_manager
                &&& final(self).event_bus == old(self).event_bus
            },
    {
        let loc = match self.entity_to_location.get(&id) {
            Some(l) => *l,
            None => {
                return ;
            },
        };
        let a = loc.0;
        let r = loc.1;
        let signature = self.archetypes[a].signature;
        if signature.contains(ComponentKind::Attributes) {
            let ghost pre = *self;
            let mut table = self.archetypes.remove(a);
            let ghost tpre = table;
            match &mut table.attributes {
                Some(column) => {
                    column[r] = component;
                },
                None => {
                    proof {
                        assert(false);
                    }
                },
            }
            self.archetypes.insert(a, table);
            proof {
                assert(self.archetypes@ =~= pre.archetypes@.update(a as int, table));
                assert forall|i: int|
                    0 <= i < table.spec_len() && i != r implies table.bundle_at(i)
                    == tpre.bundle_at(i) by {}
                lemma_wf_after_update_row(pre, *self, id, a as int, r as int);
                assert(table.bundle_at(r as int) == (EntityComponents {
                    attributes: Some(component),
                    ..tpre.bundle_at(r as int)
                }));
                lemma_signature_noop(signature, ComponentKind::Attributes);
                assert(ECS::layout_unchanged(*old(self), *self)) by {
                    assert forall|t: int|
                        0 <= t < old(self).archetypes@.len() implies (
                        #[trigger] self.archetypes@[t]).entity_ids
                            == old(self).archetypes@[t].entity_ids
                            && self.archetypes@[t].signature
                            == old(self).archetypes@[t].signature by {
                        if t != a {
                            assert(self.archetypes@[t] == old(self).archetypes@[t]);
                        }
                    }
                }
            }
        } else {
            let mut bundle = self.remove_row(id);
            let ghost evicted = bundle;
            bundle.attributes = Some(component);
            let target = signature.with(ComponentKind::Attributes);
            proof {
                assert forall|k: ComponentKind| bundle.slot_filled(k) == target.has(k) by {
                    assert(evicted.slot_filled(k) == signature.has(k));
                }
            }
            self.place_bundle(bundle, target);
        proof {
            let loc = old(self).entity_to_location@[id];
            let table = old(self).archetypes@[loc.0 as int];
            let moved = table.entity_ids@[table.spec_len() - 1];
            if (loc.1 as int) < table.spec_len() - 1 {
                assert(old(self).entity_to_location@.contains_key(moved));
                assert(old(self).entity_to_location@[moved].1 == table.spec_len() - 1);
                assert(moved != id);
            }
            assert(ECS::migrated_locations(*old(self), *self, id));
        }
        }
    }

    /// Detaches entity `id`'s attributes component, migrating its row to
    /// the table whose signature drops the kind. If the entity does not
    /// carry the kind, or the id is unknown, nothing changes.
    pub fn remove_attributes_component(&mut self, id: u32)
        requires
            old(self).wf(),
        ensures
            final(self).wf(),
            !old(self).has_entity(id) ==> *final(self) == *old(self),
            old(self).has_entity(id) ==> {
                &&& final(self).has_entity(id)
                &&& final(self).bundle_of(id) == (EntityComponents {
                    attributes: None,
                    ..old(self).bundle_of(id)
                })
                &&& final(self).signature_of(id) == old(self).signature_of(id).without_spec(
                    ComponentKind::Attributes,
                )
                &&& (!old(self).signature_of(id).has(ComponentKind::Attributes) ==> *final(self)
                    == *old(self))
                &&& (old(self).signature_of(id).has(ComponentKind::Attributes)
                    ==> ECS::migrated_locations(*old(self), *final(self), id))
                &&& forall|e: u32| e != id ==> final(self).has_entity(e) == old(self).has_entity(e)
                &&& forall|e: u32|
                    e != id && old(self).has_entity(e) ==> final(self).bundle_of(e) == old(
                        self,
                    ).bundle_of(e) && final(self).signature_of(e) == old(self).signature_of(e)
                &&& final(self).entity_manager == old(self).entity_manager
                &&& final(self).tag_manager == old(self).tag_manager
                &&& final(self).event_bus == old(self).event_bus
            },
    {
        let loc = match self.entity_to_location.get(&id) {
            Some(l) => *l,
            None => {
                return ;
            },
        };
        let a = loc.0;
        let signature = self.archetypes[a].signature;
        if !signature.contains(ComponentKind::Attributes) {
            proof {
                lemma_signature_noop(signature, ComponentKind::Attributes);
                assert(ECS::layout_unchanged(*old(self), *self)) by {
                    assert forall|t: int|
                        0 <= t < old(self).archetypes@.len() implies (
                        #[trigger] self.archetypes@[t]).entity_ids
                            == old(self).archetypes@[t].entity_ids
                            && self.archetypes@[t].signature
                            == old(self).archetypes@[t].signature by {
                        if t != a {
                            assert(self.archetypes@[t] == old(self).archetypes@[t]);
                        }
                    }
                }
                old(self).archetypes@[a as int].lemma_rows_match(loc.1 as int);
                assert(old(self).bundle_of(id).attributes is None);
                assert(final(self).bundle_of(id) == (EntityComponents {
                    attributes: None,
                    ..old(self).bundle_of(id)
                }));
            }
            return ;
        }
        let mut bundle = self.remove_row(id);
        let ghost evicted = bundle;
        bundle.attributes = None;
        let target = signature.without(ComponentKind::Attributes);
        proof {
            assert forall|k: ComponentKind| bundle.slot_filled(k) == target.has(k) by {
                assert(evicted.slot_filled(k) == signature.has(k));
            }
        }
        self.place_bundle(bundle, target);
        proof {
            let loc = old(self).entity_to_location@[id];
            let table = old(self).archetypes@[loc.0 as int];
            let moved = table.entity_ids@[table.spec_len() - 1];
            if (loc.1 as int) < table.spec_len() - 1 {
                assert(old(self).entity_to_location@.contains_key(moved));
                assert(old(self).entity_to_location@[moved].1 == table.spec_len() - 1);
                assert(moved != id);
            }
            assert(ECS::migrated_locations(*old(self), *self, id));
        }
    }

    /// Attaches or replaces entity `id`'s particle_emitter component: an existing
    /// value is replaced in place; a new kind migrates the entity's row
    /// to the table whose signature adds the kind. Unknown ids no-op.
    pub fn add_particle_emitter_component(&mut self, id: u32, component: ParticleEmitterComponent)
        requires
            old(self).wf(),
        ensures
            final(self).wf(),
            !old(self).has_entity(id) ==> *final(self) == *old(self),
            old(self).has_entity(id) ==> {
                &&& final(self).has_entity(id)
                &&& final(self).bundle_of(id) == (EntityComponents {
                    particle_emitters: Some(component),
                    ..old(self).bundle_of(id)
                })
                &&& final(self).signature_of(id) == old(self).signature_of(id).with_spec(
                    ComponentKind::ParticleEmitter,
                )
                &&& (old(self).signature_of(id).has(ComponentKind::ParticleEmitter)
                    ==> ECS::layout_unchanged(*old(self), *final(self)))
                &&& (!old(self).signature_of(id).has(ComponentKind::ParticleEmitter)
                    ==> ECS::migrated_locations(*old(self), *final(self), id))
                &&& forall|e: u32| e != id ==> final(self).has_entity(e) == old(self).has_entity(e)
                &&& forall|e: u32|
                    e != id && old(self).has_entity(e) ==> final(self).bundle_of(e) == old(
                        self,
                    ).bundle_of(e) && final(self).signature_of(e) == old(self).signature_of(e)
                &&& final(self).entity_manager == old(self).entity_manager
                &&& final(self).tag_manager == old(self).tag_manager
                &&& final(self).event_bus == old(self).event_bus
            },
    {
        let loc = match self.entity_to_location.get(&id) {
            Some(l) => *l,
            None => {
                return ;
            },
        };
        let a = loc.0;
        let r = loc.1;
        let signature = self.archetypes[a].signature;
        if signature.contains(ComponentKind::ParticleEmitter) {
            let ghost pre = *self;
            let mut table = self.archetypes.remove(a);
            let ghost tpre = table;
            match &mut table.particle_emitters {
                Some(column) => {
                    column[r] = component;
                },
                None => {
                    proof {
                        assert(false);
                    }
                },
            }
            self.archetypes.insert(a, table);
            proof {
                assert(self.archetypes@ =~= pre.archetypes@.update(a as int, table));
                assert forall|i: int|
                    0 <= i < table.spec_len() && i != r implies table.bundle_at(i)
                    == tpre.bundle_at(i) by {}
                lemma_wf_after_update_row(pre, *self, id, a as int, r as int);
                assert(table.bundle_at(r as int) == (EntityComponents {
                    particle_emitters: Some(component),
                    ..tpre.bundle_at(r as int)
                }));
                lemma_signature_noop(signature, ComponentKind::ParticleEmitter);
                assert(ECS::layout_unchanged(*old(self), *self)) by {
                    assert forall|t: int|
                        0 <= t < old(self).archetypes@.len() implies (
                        #[trigger] self.archetypes@[t]).entity_ids
                            == old(self).archetypes@[t].entity_ids
                            && self.archetypes@[t].signature
                            == old(self).archetypes@[t].signature by {
                        if t != a {
                            assert(self.archetypes@[t] == old(self).archetypes@[t]);
                        }
                    }
                }
            }
        } else {
            let mut bundle = self.remove_row(id);
            let ghost evicted = bundle;
            bundle.particle_emitters = Some(component);
            let target = signature.with(ComponentKind::ParticleEmitter);
            proof {
                assert forall|k: ComponentKind| bundle.slot_filled(k) == target.has(k) by {
                    assert(evicted.slot_filled(k) == signature.has(k));
                }
            }
            self.place_bundle(bundle, target);
        proof {
            let loc = old(self).entity_to_location@[id];
            let table = old(self).archetypes@[loc.0 as int];
            let moved = table.entity_ids@[table.spec_len() - 1];
            if (loc.1 as int) < table.spec_len() - 1 {
                assert(old(self).entity_to_location@.contains_key(moved));
                assert(old(self).entity_to_location@[moved].1 == table.spec_len() - 1);
                assert(moved != id);
            }
            assert(ECS::migrated_locations(*old(self), *self, id));
        }
        }
    }

    /// Detaches entity `id`'s particle_emitter component, migrating its row to
    /// the table whose signature drops the kind. If the entity does not
    /// carry the kind, or the id is unknown, nothing changes.
    pub fn remove_particle_emitter_component(&mut self, id: u32)
        requires
            old(self).wf(),
        ensures
            final(self).wf(),
            !old(self).has_entity(id) ==> *final(self) == *old(self),
            old(self).has_entity(id) ==> {
                &&& final(self).has_entity(id)
                &&& final(self).bundle_of(id) == (EntityComponents {
                    particle_emitters: None,
                    ..old(self).bundle_of(id)
                })
                &&& final(self).signature_of(id) == old(self).signature_of(id).without_spec(
                    ComponentKind::ParticleEmitter,
                )
                &&& (!old(self).signature_of(id).has(ComponentKind::ParticleEmitter) ==> *final(self)
                    == *old(self))
                &&& (old(self).signature_of(id).has(ComponentKind::ParticleEmitter)
                    ==> ECS::migrated_locations(*old(self), *final(self), id))
                &&& forall|e: u32| e != id ==> final(self).has_entity(e) == old(self).has_entity(e)
                &&& forall|e: u32|
                    e != id && old(self).has_entity(e) ==> final(self).bundle_of(e) == old(
                        self,
                    ).bundle_of(e) && final(self).signature_of(e) == old(self).signature_of(e)
                &&& final(self).entity_manager == old(self).entity_manager
                &&& final(self).tag_manager == old(self).tag_manager
                &&& final(self).event_bus == old(self).event_bus
            },
    {
        let loc = match self.entity_to_location.get(&id) {
            Some(l) => *l,
            None => {
                return ;
            },
        };
        let a = loc.0;
        let signature = self.archetypes[a].signature;
        if !signature.contains(ComponentKind::ParticleEmitter) {
            proof {
                lemma_signature_noop(signature, ComponentKind::ParticleEmitter);
                assert(ECS::layout_unchanged(*old(self), *self)) by {
                    assert forall|t: int|
                        0 <= t < old(self).archetypes@.len() implies (
                        #[trigger] self.archetypes@[t]).entity_ids
                            == old(self).archetypes@[t].entity_ids
                            && self.archetypes@[t].signature
                            == old(self).archetypes@[t].signature by {
                        if t != a {
                            assert(self.archetypes@[t] == old(self).archetypes@[t]);
                        }
                    }
                }
                old(self).archetypes@[a as int].lemma_rows_match(loc.1 as int);
                assert(old(self).bundle_of(id).particle_emitters is None);
                assert(final(self).bundle_of(id) == (EntityComponents {
                    particle_emitters: None,
                    ..old(self).bundle_of(id)
                }));
            }
            return ;
        }
        let mut bundle = self.remove_row(id);
        let ghost evicted = bundle;
        bundle.particle_emitters = None;
        let target = signature.without(ComponentKind::ParticleEmitter);
        proof {
            assert forall|k: ComponentKind| bundle.slot_filled(k) == target.has(k) by {
                assert(evicted.slot_filled(k) == signature.has(k));
            }
        }
        self.place_bundle(bundle, target);
        proof {
            let loc = old(self).entity_to_location@[id];
            let table = old(self).archetypes@[loc.0 as int];
            let moved = table.entity_ids@[table.spec_len() - 1];
            if (loc.1 as int) < table.spec_len() - 1 {
                assert(old(self).entity_to_location@.contains_key(moved));
                assert(old(self).entity_to_location@[moved].1 == table.spec_len() - 1);
                assert(moved != id);
            }
            assert(ECS::migrated_locations(*old(self), *self, id));
        }
    }

    /// Attaches or replaces entity `id`'s particle component: an existing
    /// value is replaced in place; a new kind migrates the entity's row
    /// to the table whose signature adds the kind. Unknown ids no-op.
    pub fn add_particle_component(&mut self, id: u32, component: ParticleComponent)
        requires
            old(self).wf(),
        ensures
            final(self).wf(),
            !old(self).has_entity(id) ==> *final(self) == *old(self),
            old(self).has_entity(id) ==> {
                &&& final(self).has_entity(id)
                &&& final(self).bundle_of(id) == (EntityComponents {
                    particles: Some(component),
                    ..old(self).bundle_of(id)
                })
                &&& final(self).signature_of(id) == old(self).signature_of(id).with_spec(
                    ComponentKind::Particle,
                )
                &&& (old(self).signature_of(id).has(ComponentKind::Particle)
                    ==> ECS::layout_unchanged(*old(self), *final(self)))
                &&& (!old(self).signature_of(id).has(ComponentKind::Particle)
                    ==> ECS::migrated_locations(*old(self), *final(self), id))
                &&& forall|e: u32| e != id ==> final(self).has_entity(e) == old(self).has_entity(e)
                &&& forall|e: u32|
                    e != id && old(self).has_entity(e) ==> final(self).bundle_of(e) == old(
                        self,
                    ).bundle_of(e) && final(self).signature_of(e) == old(self).signature_of(e)
                &&& final(self).entity_manager == old(self).entity_manager
                &&& final(self).tag_manager == old(self).tag_manager
                &&& final(self).event_bus == old(self).event_bus
            },
    {
        let loc = match self.entity_to_location.get(&id) {
            Some(l) => *l,
            None => {
                return ;
            },
        };
        let a = loc.0;
        let r = loc.1;
        let signature = self.archetypes[a].signature;
        if signature.contains(ComponentKind::Particle) {
            let ghost pre = *self;
            let mut table = self.archetypes.remove(a);
            let ghost tpre = table;
            match &mut table.particles {
                Some(column) => {
                    column[r] = component;
                },
                None => {
                    proof {
                        assert(false);
                    }
                },
            }
            self.archetypes.insert(a, table);
            proof {
                assert(self.archetypes@ =~= pre.archetypes@.update(a as int, table));
                assert forall|i: int|
                    0 <= i < table.spec_len() && i != r implies table.bundle_at(i)
                    == tpre.bundle_at(i) by {}
                lemma_wf_after_update_row(pre, *self, id, a as int, r as int);
                assert(table.bundle_at(r as int) == (EntityComponents {
                    particles: Some(component),
                    ..tpre.bundle_at(r as int)
                }));
                lemma_signature_noop(signature, ComponentKind::Particle);
                assert(ECS::layout_unchanged(*old(self), *self)) by {
                    assert forall|t: int|
                        0 <= t < old(self).archetypes@.len() implies (
                        #[trigger] self.archetypes@[t]).entity_ids
                            == old(self).archetypes@[t].entity_ids
                            && self.archetypes@[t].signature
                            == old(self).archetypes@[t].signature by {
                        if t != a {
                            assert(self.archetypes@[t] == old(self).archetypes@[t]);
                        }
                    }
                }
            }
        } else {
            let mut bundle = self.remove_row(id);
            let ghost evicted = bundle;
            bundle.particles = Some(component);
            let target = signature.with(ComponentKind::Particle);
            proof {
                assert forall|k: ComponentKind| bundle.slot_filled(k) == target.has(k) by {
                    assert(evicted.slot_filled(k) == signature.has(k));
                }
            }
            self.place_bundle(bundle, target);
        proof {
            let loc = old(self).entity_to_location@[id];
            let table = old(self).archetypes@[loc.0 as int];
            let moved = table.entity_ids@[table.spec_len() - 1];
            if (loc.1 as int) < table.spec_len() - 1 {
                assert(old(self).entity_to_location@.contains_key(moved));
                assert(old(self).entity_to_location@[moved].1 == table.spec_len() - 1);
                assert(moved != id);
            }
            assert(ECS::migrated_locations(*old(self), *self, id));
        }
        }
    }

    /// Detaches entity `id`'s particle component, migrating its row to
    /// the table whose signature drops the kind. If the entity does not
    /// carry the kind, or the id is unknown, nothing changes.
    pub fn remove_particle_component(&mut self, id: u32)
        requires
            old(self).wf(),
        ensures
            final(self).wf(),
            !old(self).has_entity(id) ==> *final(self) == *old(self),
            old(self).has_entity(id) ==> {
                &&& final(self).has_entity(id)
                &&& final(self).bundle_of(id) == (EntityComponents {
                    particles: None,
                    ..old(self).bundle_of(id)
                })
                &&& final(self).signature_of(id) == old(self).signature_of(id).without_spec(
                    ComponentKind::Particle,
                )
                &&& (!old(self).signature_of(id).has(ComponentKind::Particle) ==> *final(self)
                    == *old(self))
                &&& (old(self).signature_of(id).has(ComponentKind::Particle)
                    ==> ECS::migrated_locations(*old(self), *final(self), id))
                &&& forall|e: u32| e != id ==> final(self).has_entity(e) == old(self).has_entity(e)
                &&& forall|e: u32|
                    e != id && old(self).has_entity(e) ==> final(self).bundle_of(e) == old(
                        self,
                    ).bundle_of(e) && final(self).signature_of(e) == old(self).signature_of(e)
                &&& final(self).entity_manager == old(self).entity_manager
                &&& final(self).tag_manager == old(self).tag_manager
                &&& final(self).event_bus == old(self).event_bus
            },
    {
        let loc = match self.entity_to_location.get(&id) {
            Some(l) => *l,
            None => {
                return ;
            },
        };
        let a = loc.0;
        let signature = self.archetypes[a].signature;
        if !signature.contains(ComponentKind::Particle) {
            proof {
                lemma_signature_noop(signature, ComponentKind::Particle);
                assert(ECS::layout_unchanged(*old(self), *self)) by {
                    assert forall|t: int|
                        0 <= t < old(self).archetypes@.len() implies (
                        #[trigger] self.archetypes@[t]).entity_ids
                            == old(self).archetypes@[t].entity_ids
                            && self.archetypes@[t].signature
                            == old(self).archetypes@[t].signature by {
                        if t != a {
                            assert(self.archetypes@[t] == old(self).archetypes@[t]);
                        }
                    }
                }
                old(self).archetypes@[a as int].lemma_rows_match(loc.1 as int);
                assert(old(self).bundle_of(id).particles is None);
                assert(final(self).bundle_of(id) == (EntityComponents {
                    particles: None,
                    ..old(self).bundle_of(id)
                }));
            }
            return ;
        }
        let mut bundle = self.remove_row(id);
        let ghost evicted = bundle;
        bundle.particles = None;
        let target = signature.without(ComponentKind::Particle);
        proof {
            assert forall|k: ComponentKind| bundle.slot_filled(k) == target.has(k) by {
                assert(evicted.slot_filled(k) == signature.has(k));
            }
        }
        self.place_bundle(bundle, target);
        proof {
            let loc = old(self).entity_to_location@[id];
            let table = old(self).archetypes@[loc.0 as int];
            let moved = table.entity_ids@[table.spec_len() - 1];
            if (loc.1 as int) < table.spec_len() - 1 {
                assert(old(self).entity_to_location@.contains_key(moved));
                assert(old(self).entity_to_location@[moved].1 == table.spec_len() - 1);
                assert(moved != id);
            }
            assert(ECS::migrated_locations(*old(self), *self, id));
        }
    }

    /// Entity `id`'s camera component, if the entity is live and
    /// carries one.
    pub fn camera_component(&self, id: u32) -> (r: Option<&CameraComponent>)
        requires
            self.wf(),
        ensures
            match r {
                Some(c) => self.has_entity(id) && self.bundle_of(id).camera == Some(*c),
                None => !self.has_entity(id) || self.bundle_of(id).camera is None,
            },
    {
        let loc = match self.entity_to_location.get(&id) {
            Some(l) => *l,
            None => {
                return None;
            },
        };
        match &self.archetypes[loc.0].cameras {
            Some(column) => Some(&column[loc.1]),
            None => None,
        }
    }

    /// Entity `id`'s model component, if the entity is live and
    /// carries one.
    pub fn model_component(&self, id: u32) -> (r: Option<&ModelComponent>)
        requires
            self.wf(),
        ensures
            match r {
                Some(c) => self.has_entity(id) && self.bundle_of(id).model == Some(*c),
                None => !self.has_entity(id) || self.bundle_of(id).model is None,
            },
    {
        let loc = match self.entity_to_location.get(&id) {
            Some(l) => *l,
            None => {
                return None;
            },
        };
        match &self.archetypes[loc.0].models {
            Some(column) => Some(&column[loc.1]),
            None => None,
        }
    }

    /// Entity `id`'s texture component, if the entity is live and
    /// carries one.
    pub fn texture_component(&self, id: u32) -> (r: Option<&TextureComponent>)
        requires
            self.wf(),
        ensures
            match r {
                Some(c) => self.has_entity(id) && self.bundle_of(id).texture == Some(*c),
                None => !self.has_entity(id) || self.bundle_of(id).texture is None,
            },
    {
        let loc = match self.entity_to_location.get(&id) {
            Some(l) => *l,
            None => {
                return None;
            },
        };
        match &self.archetypes[loc.0].textures {
            Some(column) => Some(&column[loc.1]),
            None => None,
        }
    }

    /// Entity `id`'s physics component, if the entity is live and
    /// carries one.
    pub fn physics_component(&self, id: u32) -> (r: Option<&PhysicsComponent>)
        requires
            self.wf(),
        ensures
            match r {
                Some(c) => self.has_entity(id) && self.bundle_of(id).physics == Some(*c),
                None => !self.has_entity(id) || self.bundle_of(id).physics is None,
            },
    {
        let loc = match self.entity_to_location.get(&id) {
            Some(l) => *l,
            None => {
                return None;
            },
        };
        match &self.archetypes[loc.0].physics {
            Some(column) => Some(&column[loc.1]),
            None => None,
        }
    }

    /// Entity `id`'s hierarchy component, if the entity is live and
    /// carries one.
    pub fn hierarchy_component(&self, id: u32) -> (r: Option<&HierarchyComponent>)
        requires
            self.wf(),
        ensures
            match r {
                Some(c) => self.has_entity(id) && self.bundle_of(id).hierarchy == Some(*c),
                None => !self.has_entity(id) || self.bundle_of(id).hierarchy is None,
            },
    {
        let loc = match self.entity_to_location.get(&id) {
            Some(l) => *l,
            None => {
                return None;
            },
        };
        match &self.archetypes[loc.0].hierarchies {
            Some(column) => Some(&column[loc.1]),
            None => None,
        }
    }

    /// Entity `id`'s attributes component, if the entity is live and
    /// carries one.
    pub fn attributes_component(&self, id: u32) -> (r: Option<&AttributesComponent>)
        requires
            self.wf(),
        ensures
            match r {
                Some(c) => self.has_entity(id) && self.bundle_of(id).attributes == Some(*c),
                None => !self.has_entity(id) || self.bundle_of(id).attributes is None,
            },
    {
        let loc = match self.entity_to_location.get(&id) {
            Some(l) => *l,
            None => {
                return None;
            },
        };
        match &self.archetypes[loc.0].attributes {
            Some(column) => Some(&column[loc.1]),
            None => None,
        }
    }

}


impl ECS {
    /// Creates a new entity with the mandatory components only: a fresh
    /// or recycled identifier, a row in the empty-signature table, and a
    /// recorded location.
    pub fn add_entity(&mut self, position: Position, orientation: Orientation, name: Name) -> (id:
        u32)
        requires
            old(self).wf(),
            old(self).entity_manager.can_allocate(),
        ensures
            final(self).wf(),
            !old(self).has_entity(id),
            final(self).has_entity(id),
            final(self).bundle_of(id).id == id,
            final(self).bundle_of(id).position == position,
            final(self).bundle_of(id).orientation == orientation,
            final(self).bundle_of(id).name == name,
            forall|k: ComponentKind| !final(self).bundle_of(id).slot_filled(k),
            forall|k: ComponentKind| !final(self).signature_of(id).has(k),
            forall|e: u32| e != id ==> final(self).has_entity(e) == old(self).has_entity(e),
            forall|e: u32|
                e != id && old(self).has_entity(e) ==> final(self).bundle_of(e) == old(
                    self,
                ).bundle_of(e) && final(self).signature_of(e) == old(self).signature_of(e),
            old(self).entity_manager.recycled_ids@.len() > 0 ==> old(
                self,
            ).entity_manager.free_pool().contains(id) && final(self).entity_manager.free_pool()
                == old(self).entity_manager.free_pool().remove(id)
                && final(self).entity_manager.next_entity_id == old(
                self,
            ).entity_manager.next_entity_id,
            old(self).entity_manager.recycled_ids@.len() == 0 ==> id == old(
                self,
            ).entity_manager.next_entity_id && final(self).entity_manager.next_entity_id == id + 1
                && final(self).entity_manager.free_pool() == old(self).entity_manager.free_pool(),
            final(self).tag_manager == old(self).tag_manager,
            final(self).event_bus == old(self).event_bus,
    {
        let id = self.entity_manager.create_entity();
        proof {
            assert(!old(self).has_entity(id));
        }
        let bundle = EntityComponents::base(id, position, orientation, name);
        let signature = ComponentSignature::empty();
        proof {
            assert forall|k: ComponentKind| bundle.slot_filled(k) == signature.has(k) by {}
        }
        self.place_bundle(bundle, signature);
        id
    }

    /// The table holding entity `id`, if the entity is live.
    pub fn find_entity(&self, id: u32) -> (r: Option<&Archetype>)
        requires
            self.wf(),
        ensures
            match r {
                Some(table) => self.has_entity(id) && *table == self.archetypes@[(
                self.entity_to_location@[id].0) as int],
                None => !self.has_entity(id),
            },
    {
        match self.entity_to_location.get(&id) {
            Some(loc) => Some(&self.archetypes[loc.0]),
            None => None,
        }
    }

    /// Entity `id`'s mandatory components, if the entity is live.
    pub fn find_entity_components(&self, id: u32) -> (r: Option<(&Position, &Orientation, &Name)>)
        requires
            self.wf(),
        ensures
            match r {
                Some(parts) => self.has_entity(id) && *parts.0 == self.bundle_of(id).position
                    && *parts.1 == self.bundle_of(id).orientation && *parts.2 == self.bundle_of(
                    id,
                ).name,
                None => !self.has_entity(id),
            },
    {
        match self.entity_to_location.get(&id) {
            Some(loc) => {
                let table = &self.archetypes[loc.0];
                Some((&table.positions[loc.1], &table.orientations[loc.1], &table.names[loc.1]))
            },
            None => None,
        }
    }

    /// Entity `id`'s world orientation, if the entity is live.
    pub fn orientation_component(&self, id: u32) -> (r: Option<&Orientation>)
        requires
            self.wf(),
        ensures
            match r {
                Some(o) => self.has_entity(id) && *o == self.bundle_of(id).orientation,
                None => !self.has_entity(id),
            },
    {
        match self.entity_to_location.get(&id) {
            Some(loc) => Some(&self.archetypes[loc.0].orientations[loc.1]),
            None => None,
        }
    }

    /// Overwrites entity `id`'s world position; reports whether the
    /// entity was live.
    pub fn set_position(&mut self, id: u32, position: Position) -> (r: bool)
        requires
            old(self).wf(),
        ensures
            final(self).wf(),
            r == old(self).has_entity(id),
            !old(self).has_entity(id) ==> *final(self) == *old(self),
            old(self).has_entity(id) ==> {
                &&& final(self).bundle_of(id) == (EntityComponents {
                    position,
                    ..old(self).bundle_of(id)
                })
                &&& final(self).signature_of(id) == old(self).signature_of(id)
                &&& ECS::layout_unchanged(*old(self), *final(self))
                &&& forall|e: u32| e != id ==> final(self).has_entity(e) == old(self).has_entity(e)
                &&& final(self).has_entity(id)
                &&& forall|e: u32|
                    e != id && old(self).has_entity(e) ==> final(self).bundle_of(e) == old(
                        self,
                    ).bundle_of(e) && final(self).signature_of(e) == old(self).signature_of(e)
                &&& final(self).entity_manager == old(self).entity_manager
                &&& final(self).tag_manager == old(self).tag_manager
                &&& final(self).event_bus == old(self).event_bus
            },
    {
        let loc = match self.entity_to_location.get(&id) {
            Some(l) => *l,
            None => {
                return false;
            },
        };
        let a = loc.0;
        let r = loc.1;
        let ghost pre = *self;
        let mut table = self.archetypes.remove(a);
        let ghost tpre = table;
        table.positions[r] = position;
        self.archetypes.insert(a, table);
        proof {
            assert(self.archetypes@ =~= pre.archetypes@.update(a as int, table));
            assert forall|i: int|
                0 <= i < table.spec_len() && i != r implies table.bundle_at(i) == tpre.bundle_at(
                i,
            ) by {}
            lemma_wf_after_update_row(pre, *self, id, a as int, r as int);
            assert(table.bundle_at(r as int) == (EntityComponents {
                position,
                ..tpre.bundle_at(r as int)
            }));
            assert(ECS::layout_unchanged(*old(self), *self)) by {
                assert forall|t: int|
                    0 <= t < old(self).archetypes@.len() implies (
                    #[trigger] self.archetypes@[t]).entity_ids
                        == old(self).archetypes@[t].entity_ids && self.archetypes@[t].signature
                        == old(self).archetypes@[t].signature by {
                    if t != a {
                        assert(self.archetypes@[t] == old(self).archetypes@[t]);
                    }
                }
            }
        }
        true
    }

    /// Overwrites entity `id`'s world orientation; reports whether the
    /// entity was live.
    pub fn set_orientation(&mut self, id: u32, orientation: Orientation) -> (r: bool)
        requires
            old(self).wf(),
        ensures
            final(self).wf(),
            r == old(self).has_entity(id),
            !old(self).has_entity(id) ==> *final(self) == *old(self),
            old(self).has_entity(id) ==> {
                &&& final(self).bundle_of(id) == (EntityComponents {
                    orientation,
                    ..old(self).bundle_of(id)
                })
                &&& final(self).signature_of(id) == old(self).signature_of(id)
                &&& ECS::layout_unchanged(*old(self), *final(self))
                &&& forall|e: u32| e != id ==> final(self).has_entity(e) == old(self).has_entity(e)
                &&& final(self).has_entity(id)
                &&& forall|e: u32|
                    e != id && old(self).has_entity(e) ==> final(self).bundle_of(e) == old(
                        self,
                    ).bundle_of(e) && final(self).signature_of(e) == old(self).signature_of(e)
                &&& final(self).entity_manager == old(self).entity_manager
                &&& final(self).tag_manager == old(self).tag_manager
                &&& final(self).event_bus == old(self).event_bus
            },
    {
        let loc = match self.entity_to_location.get(&id) {
            Some(l) => *l,
            None => {
                return false;
            },
        };
        let a = loc.0;
        let r = loc.1;
        let ghost pre = *self;
        let mut table = self.archetypes.remove(a);
        let ghost tpre = table;
        table.orientations[r] = orientation;
        self.archetypes.insert(a, table);
        proof {
            assert(self.archetypes@ =~= pre.archetypes@.update(a as int, table));
            assert forall|i: int|
                0 <= i < table.spec_len() && i != r implies table.bundle_at(i) == tpre.bundle_at(
                i,
            ) by {}
            lemma_wf_after_update_row(pre, *self, id, a as int, r as int);
            assert(table.bundle_at(r as int) == (EntityComponents {
                orientation,
                ..tpre.bundle_at(r as int)
            }));
            assert(ECS::layout_unchanged(*old(self), *self)) by {
                assert forall|t: int|
                    0 <= t < old(self).archetypes@.len() implies (
                    #[trigger] self.archetypes@[t]).entity_ids
                        == old(self).archetypes@[t].entity_ids && self.archetypes@[t].signature
                        == old(self).archetypes@[t].signature by {
                    if t != a {
                        assert(self.archetypes@[t] == old(self).archetypes@[t]);
                    }
                }
            }
        }
        true
    }

    /// The identifier of some live entity carrying `name`, if any does.
    /// Duplicate names are not rejected; one of the matches is returned.
    pub fn find_entity_id_by_name(&self, name: &str) -> (r: Option<u32>)
        requires
            self.wf(),
        ensures
            match r {
                Some(id) => self.has_entity(id) && self.bundle_of(id).name.0@ == name@,
                None => forall|id: u32|
                    self.has_entity(id) ==> (#[trigger] self.bundle_of(id)).name.0@ != name@,
            },
    {
        let tables = self.archetypes.len();
        let mut a: usize = 0;
        while a < tables
            invariant
                self.wf(),
                tables == self.archetypes@.len(),
                a <= tables,
                forall|t: int, i: int|
                    0 <= t < a && 0 <= i < self.archetypes@[t].spec_len()
                        ==> (#[trigger] self.archetypes@[t].names@[i]).0@ != name@,
            decreases tables - a,
        {
            let rows = self.archetypes[a].names.len();
            proof {
                assert(rows == self.archetypes@[a as int].spec_len());
            }
            let mut i: usize = 0;
            while i < rows
                invariant
                    self.wf(),
                    a < self.archetypes@.len(),
                    rows == self.archetypes@[a as int].spec_len(),
                    rows == self.archetypes@[a as int].names@.len(),
                    i <= rows,
                    forall|j: int|
                        0 <= j < i ==> (#[trigger] self.archetypes@[a as int].names@[j]).0@
                            != name@,
                decreases rows - i,
            {
                if str_eq(self.archetypes[a].names[i].0.as_str(), name) {
                    let id = self.archetypes[a].entity_ids[i];
                    proof {
                        assert(self.entity_to_location@.contains_key(id));
                        assert(self.entity_to_location@[id] == (a, i));
                        assert(self.bundle_of(id).name
                            == self.archetypes@[a as int].names@[i as int]);
                    }
                    return Some(id);
                }
                i += 1;
            }
            a += 1;
        }
        proof {
            assert forall|id: u32| self.has_entity(id) implies (
            #[trigger] self.bundle_of(id)).name.0@ != name@ by {
                let loc = self.entity_to_location@[id];
                assert(self.archetypes@[loc.0 as int].names@[loc.1 as int].0@ != name@);
            }
        }
        None
    }

    /// Destroys entity `id`: its row is swap-removed, its identifier is
    /// returned to the free pool, and any parent-link pointing at it is
    /// dropped from the children (the children themselves survive).
    /// Unknown ids no-op.
    pub fn remove_entity(&mut self, id: u32)
        requires
            old(self).wf(),
        ensures
            final(self).wf(),
            !old(self).has_entity(id) ==> *final(self) == *old(self),
            !final(self).has_entity(id),
            forall|e: u32| e != id ==> final(self).has_entity(e) == old(self).has_entity(e),
            old(self).has_entity(id) ==> {
                &&& final(self).entity_manager.free_pool() == old(
                    self,
                ).entity_manager.free_pool().insert(id)
                &&& final(self).entity_manager.next_entity_id == old(
                    self,
                ).entity_manager.next_entity_id
                &&& forall|e: u32|
                    e != id && old(self).has_entity(e) ==> final(self).bundle_of(e)
                        == detach_parent(old(self).bundle_of(e), id)
                &&& final(self).tag_manager == old(self).tag_manager
                &&& final(self).event_bus == old(self).event_bus
            },
            old(self).has_entity(id) && !old(self).signature_of(id).has(
                ComponentKind::Hierarchy,
            ) ==> {
                let loc = old(self).entity_to_location@[id];
                let table = old(self).archetypes@[loc.0 as int];
                let moved = table.entity_ids@[table.spec_len() - 1];
                (loc.1 as int) < table.spec_len() - 1 ==> final(self).entity_to_location@.contains_key(moved) && final(self).entity_to_location@[moved]
                    == loc
            },
    {
        if self.entity_to_location.get(&id).is_none() {
            return ;
        }
        let _bundle = self.remove_row(id);
        self.entity_manager.destroy_entity(id);
        proof {
            assert(self.wf());
        }
        let ghost mid = *self;
        self.detach_children_of(id);
        proof {
            if !old(self).signature_of(id).has(ComponentKind::Hierarchy) {
                let loc = old(self).entity_to_location@[id];
                let table = old(self).archetypes@[loc.0 as int];
                let moved = table.entity_ids@[table.spec_len() - 1];
                if (loc.1 as int) < table.spec_len() - 1 {
                    assert(old(self).entity_to_location@.contains_key(moved));
                    assert(old(self).entity_to_location@[moved].1 == table.spec_len() - 1);
                    assert(moved != id);
                    assert(mid.entity_to_location@.contains_key(moved)
                        && mid.entity_to_location@[moved] == loc);
                    // The relocated entity carries no parent-link (its
                    // table's signature lacks the kind), so detaching the
                    // children leaves its location alone.
                    old(self).archetypes@[loc.0 as int].lemma_rows_match(
                        (table.spec_len() - 1) as int,
                    );
                    assert(old(self).bundle_of(moved).hierarchy is None);
                    assert(mid.bundle_of(moved) == old(self).bundle_of(moved));
                    assert(mid.bundle_of(moved).hierarchy is None);
                    assert(mid.has_entity(moved));
                    assert(self.entity_to_location@.contains_key(moved)
                        && self.entity_to_location@[moved] == mid.entity_to_location@[moved]);
                    assert(self.entity_to_location@[moved] == loc);
                }
            }
        }
    }

    /// Drops the parent-link of every live entity whose link points at
    /// `parent_id`.
    fn detach_children_of(&mut self, parent_id: u32)
        requires
            old(self).wf(),
            !old(self).has_entity(parent_id),
        ensures
            final(self).wf(),
            forall|e: u32| final(self).has_entity(e) == old(self).has_entity(e),
            forall|e: u32|
                old(self).has_entity(e) ==> final(self).bundle_of(e) == detach_parent(
                    old(self).bundle_of(e),
                    parent_id,
                ),
            forall|e: u32|
                old(self).has_entity(e) && old(self).bundle_of(e).hierarchy is None ==> final(self).entity_to_location@.contains_key(e) && final(self).entity_to_location@[e] == old(
                    self,
                ).entity_to_location@[e],
            final(self).entity_manager == old(self).entity_manager,
            final(self).tag_manager == old(self).tag_manager,
            final(self).event_bus == old(self).event_bus,
    {
        let mut children: Vec<u32> = Vec::new();
        let tables = self.archetypes.len();
        let mut a: usize = 0;
        while a < tables
            invariant
                self.wf(),
                *self == *old(self),
                tables == self.archetypes@.len(),
                a <= tables,
                forall|j: int|
                    0 <= j < children@.len() ==> self.has_entity(#[trigger] children@[j])
                        && is_child_of(self.bundle_of(children@[j]), parent_id),
                forall|t: int, i: int|
                    0 <= t < a && 0 <= i < self.archetypes@[t].spec_len() && is_child_of(
                        #[trigger] self.archetypes@[t].bundle_at(i),
                        parent_id,
                    ) ==> children@.contains(self.archetypes@[t].entity_ids@[i]),
            decreases tables - a,
        {
            let has_links = self.archetypes[a].hierarchies.is_some();
            let rows = self.archetypes[a].entity_ids.len();
            let mut i: usize = 0;
            while i < rows
                invariant
                    self.wf(),
                    *self == *old(self),
                    a < self.archetypes@.len(),
                    has_links == (self.archetypes@[a as int].hierarchies is Some),
                    rows == self.archetypes@[a as int].spec_len(),
                    i <= rows,
                    forall|j: int|
                        0 <= j < children@.len() ==> self.has_entity(#[trigger] children@[j])
                            && is_child_of(self.bundle_of(children@[j]), parent_id),
                    forall|t: int, k: int|
                        0 <= t < a && 0 <= k < self.archetypes@[t].spec_len() && is_child_of(
                            #[trigger] self.archetypes@[t].bundle_at(k),
                            parent_id,
                        ) ==> children@.contains(self.archetypes@[t].entity_ids@[k]),
                    forall|k: int|
                        0 <= k < i && is_child_of(
                            #[trigger] self.archetypes@[a as int].bundle_at(k),
                            parent_id,
                        ) ==> children@.contains(self.archetypes@[a as int].entity_ids@[k]),
                decreases rows - i,
            {
                let mut linked = false;
                match &self.archetypes[a].hierarchies {
                    Some(column) => {
                        if column[i].parent == parent_id {
                            linked = true;
                        }
                    },
                    None => {},
                }
                if linked {
                    let child = self.archetypes[a].entity_ids[i];
                    proof {
                        assert(self.entity_to_location@.contains_key(child));
                        assert(self.entity_to_location@[child] == (a, i));
                        assert(is_child_of(self.bundle_of(child), parent_id));
                    }
                    let ghost prev = children@;
                    children.push(child);
                    proof {
                        assert forall|jj: int|
                            0 <= jj < children@.len() implies self.has_entity(
                            #[trigger] children@[jj],
                        ) && is_child_of(self.bundle_of(children@[jj]), parent_id) by {
                            if jj < prev.len() {
                                assert(children@[jj] == prev[jj]);
                            } else {
                                assert(children@[jj] == child);
                            }
                        }
                        assert forall|t: int, k: int|
                            0 <= t < a && 0 <= k < self.archetypes@[t].spec_len() && is_child_of(
                                #[trigger] self.archetypes@[t].bundle_at(k),
                                parent_id,
                            ) implies children@.contains(
                            self.archetypes@[t].entity_ids@[k],
                        ) by {
                            let e = self.archetypes@[t].entity_ids@[k];
                            assert(prev.contains(e));
                            let q = choose|q: int| 0 <= q < prev.len() && prev[q] == e;
                            assert(children@[q] == e);
                        }
                        assert forall|k: int|
                            0 <= k < i + 1 && is_child_of(
                                #[trigger] self.archetypes@[a as int].bundle_at(k),
                                parent_id,
                            ) implies children@.contains(
                            self.archetypes@[a as int].entity_ids@[k],
                        ) by {
                            let e = self.archetypes@[a as int].entity_ids@[k];
                            if k < i {
                                assert(prev.contains(e));
                                let q = choose|q: int| 0 <= q < prev.len() && prev[q] == e;
                                assert(children@[q] == e);
                            } else {
                                assert(children@[prev.len() as int] == child);
                            }
                        }
                    }
                } else {
                    proof {
                        if has_links {
                            assert(!is_child_of(
                                self.archetypes@[a as int].bundle_at(i as int),
                                parent_id,
                            ));
                        } else {
                            assert(self.archetypes@[a as int].bundle_at(i as int).hierarchy
                                is None);
                        }
                    }
                }
                i += 1;
            }
            a += 1;
        }
        let count = children.len();
        let ghost snapshot = *self;
        let mut j: usize = 0;
        while j < count
            invariant
                self.wf(),
                snapshot == *old(self),
                count == children@.len(),
                j <= count,
                forall|e: u32| self.has_entity(e) == snapshot.has_entity(e),
                forall|jj: int|
                    0 <= jj < children@.len() ==> snapshot.has_entity(#[trigger] children@[jj])
                        && is_child_of(snapshot.bundle_of(children@[jj]), parent_id),
                forall|t: int, i: int|
                    0 <= t < snapshot.archetypes@.len() && 0 <= i
                        < snapshot.archetypes@[t].spec_len() && is_child_of(
                        #[trigger] snapshot.archetypes@[t].bundle_at(i),
                        parent_id,
                    ) ==> children@.contains(snapshot.archetypes@[t].entity_ids@[i]),
                forall|e: u32|
                    snapshot.has_entity(e) && !children@.subrange(0, j as int).contains(e)
                        ==> #[trigger] self.bundle_of(e) == snapshot.bundle_of(e),
                forall|e: u32|
                    snapshot.has_entity(e) && children@.subrange(0, j as int).contains(e)
                        ==> #[trigger] self.bundle_of(e) == detach_parent(
                        snapshot.bundle_of(e),
                        parent_id,
                    ),
                forall|e: u32|
                    snapshot.has_entity(e) && snapshot.bundle_of(e).hierarchy is None
                        ==> self.entity_to_location@.contains_key(e)
                        && #[trigger] self.entity_to_location@[e]
                        == snapshot.entity_to_location@[e],
                self.entity_manager == snapshot.entity_manager,
                self.tag_manager == snapshot.tag_manager,
                self.event_bus == snapshot.event_bus,
            decreases count - j,
        {
            let child = children[j];
            let ghost before = *self;
            self.remove_hierarchy_component(child);
            proof {
                let processed = children@.subrange(0, j as int);
                let processed_now = children@.subrange(0, j + 1 as int);
                assert(processed_now.drop_last() =~= processed);
                assert forall|e: u32|
                    snapshot.has_entity(e) && !processed_now.contains(e)
                        implies #[trigger] self.bundle_of(e) == snapshot.bundle_of(e) by {
                    assert(!processed.contains(e)) by {
                        if processed.contains(e) {
                            let q = choose|q: int|
                                0 <= q < processed.len() && processed[q] == e;
                            assert(processed_now[q] == e);
                        }
                    }
                    assert(e != child) by {
                        assert(processed_now.last() == child);
                    }
                }
                assert forall|e: u32|
                    snapshot.has_entity(e) && processed_now.contains(e)
                        implies #[trigger] self.bundle_of(e) == detach_parent(
                        snapshot.bundle_of(e),
                        parent_id,
                    ) by {
                    if e == child {
                        if processed.contains(e) {
                            assert(before.bundle_of(e) == detach_parent(
                                snapshot.bundle_of(e),
                                parent_id,
                            ));
                            assert(before.bundle_of(e).hierarchy is None);
                            assert(self.bundle_of(e) == (EntityComponents {
                                hierarchy: None,
                                ..before.bundle_of(e)
                            }));
                        } else {
                            assert(before.bundle_of(e) == snapshot.bundle_of(e));
                            assert(is_child_of(snapshot.bundle_of(e), parent_id));
                            assert(self.bundle_of(e) == (EntityComponents {
                                hierarchy: None,
                                ..snapshot.bundle_of(e)
                            }));
                        }
                    } else {
                        let q = choose|q: int|
                            0 <= q < processed_now.len() && processed_now[q] == e;
                        assert(q < processed.len());
                        assert(processed[q] == e);
                        assert(self.bundle_of(e) == before.bundle_of(e));
                    }
                }
                assert forall|e: u32|
                    snapshot.has_entity(e) && snapshot.bundle_of(e).hierarchy is None
                        implies self.entity_to_location@.contains_key(e)
                        && #[trigger] self.entity_to_location@[e]
                        == snapshot.entity_to_location@[e] by {
                    assert(before.bundle_of(e).hierarchy is None);
                    if before.signature_of(child).has(ComponentKind::Hierarchy) {
                        let cl = before.entity_to_location@[child];
                        let ctable = before.archetypes@[cl.0 as int];
                        let moved = ctable.entity_ids@[ctable.spec_len() - 1];
                        assert(before.has_entity(child));
                        ctable.lemma_rows_match(cl.1 as int);
                        assert(before.bundle_of(child).hierarchy is Some);
                        assert(e != child);
                        assert(before.entity_to_location@.contains_key(moved));
                        assert(before.entity_to_location@[moved] == (
                            cl.0,
                            (ctable.spec_len() - 1) as usize,
                        ));
                        ctable.lemma_rows_match((ctable.spec_len() - 1) as int);
                        assert(before.bundle_of(moved).hierarchy is Some);
                        assert(e != moved);
                        assert(ECS::migrated_locations(before, *self, child));
                        assert(self.entity_to_location@.contains_key(e)
                            && self.entity_to_location@[e] == before.entity_to_location@[e]);
                    } else {
                        assert(*self == before);
                    }
                }
            }
            j += 1;
        }
        proof {
            assert(children@.subrange(0, count as int) =~= children@);
            assert forall|e: u32|
                old(self).has_entity(e) implies final(self).bundle_of(e) == detach_parent(
                old(self).bundle_of(e),
                parent_id,
            ) by {
                if !children@.contains(e) {
                    let loc = snapshot.entity_to_location@[e];
                    assert(!is_child_of(
                        snapshot.archetypes@[loc.0 as int].bundle_at(loc.1 as int),
                        parent_id,
                    ));
                    assert(!is_child_of(snapshot.bundle_of(e), parent_id));
                }
            }
        }
    }
}

/// Whether a bundle carries a parent-link pointing at `parent_id`.
pub open spec fn is_child_of(bundle: EntityComponents, parent_id: u32) -> bool {
    match bundle.hierarchy {
        Some(link) => link.parent == parent_id,
        None => false,
    }
}

/// The bundle with its parent-link dropped when the link points at
/// `parent_id`, and unchanged otherwise.
pub open spec fn detach_parent(bundle: EntityComponents, parent_id: u32) -> EntityComponents {
    if is_child_of(bundle, parent_id) {
        EntityComponents { hierarchy: None, ..bundle }
    } else {
        bundle
    }
}


impl ECS {
    /// Read access to the event channel.
    pub fn event_bus(&self) -> (r: &EventBus)
        ensures
            *r == self.event_bus,
    {
        &self.event_bus
    }

    /// Publishes `event` on the event channel: some box of it is
    /// appended to the queue keyed by its payload's own type. The store
    /// itself is otherwise untouched.
    pub fn emit_event<E: 'static + Send>(&mut self, event: E)
        requires
            old(self).wf(),
        ensures
            final(self).wf(),
            final(self).archetypes == old(self).archetypes,
            final(self).entity_to_location == old(self).entity_to_location,
            final(self).entity_manager == old(self).entity_manager,
            final(self).tag_manager == old(self).tag_manager,
            exists|boxed: BoxedEvent|
                #![trigger event_key_of(boxed)]
                {
                    let key = event_key_of(boxed);
                    &&& final(self).event_bus.has_queue(key)
                    &&& final(self).event_bus.queue(key) == (if old(self).event_bus.has_queue(
                        key,
                    ) {
                        old(self).event_bus.queue(key)
                    } else {
                        Seq::<BoxedEvent>::empty()
                    }).push(boxed)
                    &&& forall|k: core::any::TypeId|
                        k != key ==> final(self).event_bus.has_queue(k) == old(
                            self,
                        ).event_bus.has_queue(k)
                    &&& forall|k: core::any::TypeId|
                        k != key && old(self).event_bus.has_queue(k) ==> final(self).event_bus.queue(k) == old(self).event_bus.queue(k)
                },
    {
        self.event_bus.publish(event);
    }

    /// Publishes an already boxed event: it is appended to the queue
    /// keyed by its payload's own dynamic type; every other queue and
    /// the store itself are untouched.
    pub fn emit_boxed_event(&mut self, event: BoxedEvent)
        requires
            old(self).wf(),
        ensures
            final(self).wf(),
            final(self).archetypes == old(self).archetypes,
            final(self).entity_to_location == old(self).entity_to_location,
            final(self).entity_manager == old(self).entity_manager,
            final(self).tag_manager == old(self).tag_manager,
            final(self).event_bus.has_queue(event_key_of(event)),
            final(self).event_bus.queue(event_key_of(event)) == (if old(
                self,
            ).event_bus.has_queue(event_key_of(event)) {
                old(self).event_bus.queue(event_key_of(event))
            } else {
                Seq::<BoxedEvent>::empty()
            }).push(event),
            forall|k: core::any::TypeId|
                k != event_key_of(event) ==> final(self).event_bus.has_queue(k) == old(
                    self,
                ).event_bus.has_queue(k),
            forall|k: core::any::TypeId|
                k != event_key_of(event) && old(self).event_bus.has_queue(k) ==> final(self).event_bus.queue(k) == old(self).event_bus.queue(k),
    {
        self.event_bus.publish_boxed(event);
    }

    /// Drains all pending events of type `E`, in publication order: the
    /// queue keyed by `E`'s opaque `TypeId` is removed whole; every
    /// other queue and the store itself are untouched.
    #[verifier::rlimit(50)]
    pub fn drain_events<E: 'static + Send>(&mut self) -> (r: Vec<E>)
        requires
            old(self).wf(),
        ensures
            final(self).wf(),
            final(self).archetypes == old(self).archetypes,
            final(self).entity_to_location == old(self).entity_to_location,
            final(self).entity_manager == old(self).entity_manager,
            final(self).tag_manager == old(self).tag_manager,
            exists|key: core::any::TypeId|
                {
                    &&& !#[trigger] final(self).event_bus.has_queue(key)
                    &&& r@.len() <= (if old(self).event_bus.has_queue(key) {
                        old(self).event_bus.queue(key).len()
                    } else {
                        0
                    })
                    &&& forall|k: core::any::TypeId|
                        k != key ==> final(self).event_bus.has_queue(k) == old(
                            self,
                        ).event_bus.has_queue(k)
                    &&& forall|k: core::any::TypeId|
                        k != key && old(self).event_bus.has_queue(k) ==> final(self).event_bus.queue(k) == old(self).event_bus.queue(k)
                },
    {
        self.event_bus.drain::<E>()
    }
}


/// One attach or detach of a component kind, as the store performs it.
pub enum ComponentOp {
    Attach(ComponentKind),
    Detach(ComponentKind),
}

/// The signature the store reaches after performing `ops` in order,
/// through the per-operation transitions its contracts state.
pub open spec fn apply_ops(sig: ComponentSignature, ops: Seq<ComponentOp>) -> ComponentSignature
    decreases ops.len(),
{
    if ops.len() == 0 {
        sig
    } else {
        let rest = apply_ops(sig, ops.drop_last());
        match ops.last() {
            ComponentOp::Attach(kind) => rest.with_spec(kind),
            ComponentOp::Detach(kind) => rest.without_spec(kind),
        }
    }
}

/// The reference model: the same operations replayed against a plain
/// set of component kinds.
pub open spec fn replay_ops(kinds: Set<ComponentKind>, ops: Seq<ComponentOp>) -> Set<ComponentKind>
    decreases ops.len(),
{
    if ops.len() == 0 {
        kinds
    } else {
        let rest = replay_ops(kinds, ops.drop_last());
        match ops.last() {
            ComponentOp::Attach(kind) => rest.insert(kind),
            ComponentOp::Detach(kind) => rest.remove(kind),
        }
    }
}

/// LAW: for any sequence of attach/detach operations on one entity, the
/// component set readable afterwards — the kinds of the signature the
/// store reaches, which its attach/detach contracts pin per step —
/// equals the result of replaying the same sequence against the
/// reference set model.
pub proof fn lemma_component_set_replay(sig: ComponentSignature, ops: Seq<ComponentOp>)
    ensures
        apply_ops(sig, ops).kinds() == replay_ops(sig.kinds(), ops),
    decreases ops.len(),
{
    if ops.len() > 0 {
        lemma_component_set_replay(sig, ops.drop_last());
        match ops.last() {
            ComponentOp::Attach(kind) => {
                crate::ecs::signature::lemma_signature_spec_kinds(
                    apply_ops(sig, ops.drop_last()),
                    kind,
                );
            },
            ComponentOp::Detach(kind) => {
                crate::ecs::signature::lemma_signature_spec_kinds(
                    apply_ops(sig, ops.drop_last()),
                    kind,
                );
            },
        }
    }
}

} // verus!
