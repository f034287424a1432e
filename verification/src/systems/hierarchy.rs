//! Hierarchy resolver: composes world transforms from parent-relative
//! links once per tick.
//!
//! A depth-first walk resolves each linked entity after its parent, so
//! a child is always composed against its parent's freshly resolved
//! transform. Two mark sets protect the walk: entities already resolved
//! are skipped, and meeting an entity already on the active path means
//! the links form a cycle — that entity's link is dropped and it keeps
//! its last computed world transform, so one pass always terminates.
//! Links to missing parents and self-parenting are dropped the same
//! way, and a dropped link likewise leaves the transform untouched.

use crate::archetypes::EntityComponents;
use crate::components::{Orientation, Position};
use crate::ecs::ECS;
use crate::transform::{composed_orientation, composed_position};
use std::collections::HashSet;
use vstd::prelude::*;
use vstd::set_lib::lemma_len_subset;

verus! {

broadcast use vstd::std_specs::hash::group_hash_axioms;

/// Whether entity `e`'s stored world transform agrees with its
/// parent-link: a surviving link points at a live parent other than `e`
/// itself, and `e`'s position and orientation equal the link's offsets
/// composed with that parent's current world transform. An entity
/// without a link is trivially composed.
pub open spec fn composed_with_parent(ecs: ECS, e: u32) -> bool {
    match ecs.bundle_of(e).hierarchy {
        Some(link) => {
            &&& link.parent != e
            &&& ecs.has_entity(link.parent)
            &&& ecs.bundle_of(e).position == composed_position(
                ecs.bundle_of(link.parent).position,
                ecs.bundle_of(link.parent).orientation,
                link.local_position,
            )
            &&& ecs.bundle_of(e).orientation == composed_orientation(
                ecs.bundle_of(link.parent).orientation,
                link.local_orientation,
            )
        },
        None => true,
    }
}

/// How one resolver pass may change a bundle: not at all, by dropping
/// the parent-link only (the transform stays), or by rewriting the
/// world transform only (the link stays).
pub open spec fn resolver_step(b: EntityComponents, b2: EntityComponents) -> bool {
    ||| b2 == b
    ||| b2 == (EntityComponents { hierarchy: None, ..b })
    ||| b2 == (EntityComponents { position: b2.position, orientation: b2.orientation, ..b })
}

/// Whether entity `e` carries a link that a resolver pass must keep:
/// non-self, and pointing at a live parent that itself carries no link
/// (so no cycle can run through it and the composition cannot dangle).
pub open spec fn keeps_link(ecs: ECS, e: u32) -> bool {
    ecs.has_entity(e) && match ecs.bundle_of(e).hierarchy {
        Some(link) => link.parent != e && ecs.has_entity(link.parent) && ecs.bundle_of(
            link.parent,
        ).hierarchy is None,
        None => false,
    }
}

/// Whether live entity `a` carries a parent-link pointing at `b`.
pub open spec fn linked_to(ecs: ECS, a: u32, b: u32) -> bool {
    ecs.has_entity(a) && match ecs.bundle_of(a).hierarchy {
        Some(link) => link.parent == b,
        None => false,
    }
}

/// The walk's bookkeeping. Every already-resolved entity is composed
/// against its parent's current transform and carries a completion
/// rank; a surviving link points at a parent that is itself settled —
/// link-free, or resolved strictly earlier (smaller rank), which is why
/// no link cycle can survive a pass. An entity that is both resolved
/// and still on the active path was caught in a cycle and has lost its
/// link.
pub open spec fn pass_inv(
    ecs: ECS,
    resolved: Set<u32>,
    visiting: Set<u32>,
    rank: Map<u32, nat>,
    counter: nat,
) -> bool {
    &&& rank.dom().subset_of(resolved)
    &&& forall|x: u32|
        #[trigger] resolved.contains(x) && ecs.has_entity(x) ==> {
            &&& composed_with_parent(ecs, x)
            &&& rank.contains_key(x) && rank[x] < counter
            &&& (match ecs.bundle_of(x).hierarchy {
                Some(link) => ecs.bundle_of(link.parent).hierarchy is None || (resolved.contains(
                    link.parent,
                ) && rank.contains_key(link.parent) && rank[link.parent] < rank[x]),
                None => true,
            })
            &&& (visiting.contains(x) ==> ecs.bundle_of(x).hierarchy is None)
        }
}

pub struct HierarchySystem;

impl HierarchySystem {
    /// Resolves every entity carrying a parent-link, parents first.
    /// Afterwards every surviving link is composed: the entity's world
    /// transform equals its offsets composed with its parent's final
    /// world transform, the parent is live and not the entity itself —
    /// so self-parenting and links to dead parents are always dropped.
    /// Each entity is changed at most one step: dropped link (keeping
    /// its last transform), rewritten transform (keeping its link), or
    /// untouched; entities without a link are never touched, and no
    /// link is ever added. A non-self link to a live parent that itself
    /// carries no link is always kept; no two entities survive mutually
    /// parented, so a two-entity cycle always loses at least one link.
    /// Entities are neither created nor destroyed; identifiers, tags
    /// and queued events are untouched.
    pub fn update(ecs: &mut ECS)
        requires
            old(ecs).wf(),
        ensures
            final(ecs).wf(),
            forall|e: u32| final(ecs).has_entity(e) == old(ecs).has_entity(e),
            forall|e: u32|
                final(ecs).has_entity(e) && final(ecs).bundle_of(e).hierarchy is Some
                    ==> composed_with_parent(*final(ecs), e),
            forall|e: u32|
                old(ecs).has_entity(e) && old(ecs).bundle_of(e).hierarchy is None ==> final(ecs).bundle_of(e) == old(ecs).bundle_of(e),
            forall|e: u32|
                old(ecs).has_entity(e) ==> resolver_step(
                    old(ecs).bundle_of(e),
                    final(ecs).bundle_of(e),
                ),
            forall|e: u32|
                old(ecs).has_entity(e) ==> match final(ecs).bundle_of(e).hierarchy {
                    Some(link) => old(ecs).bundle_of(e).hierarchy == Some(link),
                    None => true,
                },
            forall|a: u32, b: u32|
                !(linked_to(*final(ecs), a, b) && #[trigger] linked_to(*final(ecs), b, a)),
            forall|e: u32|
                #[trigger] keeps_link(*old(ecs), e) ==> final(ecs).bundle_of(e).hierarchy == old(
                    ecs,
                ).bundle_of(e).hierarchy,
            final(ecs).entity_manager == old(ecs).entity_manager,
            final(ecs).tag_manager == old(ecs).tag_manager,
            final(ecs).event_bus == old(ecs).event_bus,
    {
        let mut resolved: HashSet<u32> = HashSet::new();
        let mut visiting: HashSet<u32> = HashSet::new();
        let ghost mut rank: Map<u32, nat> = Map::empty();
        let ghost mut counter: nat = 0;
        let entities = Self::collect_entities_with_hierarchy(ecs);
        let count = entities.len();
        let mut i: usize = 0;
        while i < count
            invariant
                ecs.wf(),
                count == entities@.len(),
                i <= count,
                visiting@ =~= Set::<u32>::empty(),
                forall|e: u32| ecs.has_entity(e) == old(ecs).has_entity(e),
                forall|j: int| 0 <= j < i ==> resolved@.contains(#[trigger] entities@[j]),
                pass_inv(*ecs, resolved@, visiting@, rank, counter),
                forall|e: u32|
                    old(ecs).has_entity(e) && !resolved@.contains(e) ==> #[trigger] ecs.bundle_of(
                        e,
                    ) == old(ecs).bundle_of(e),
                forall|e: u32|
                    old(ecs).has_entity(e) ==> resolver_step(
                        old(ecs).bundle_of(e),
                        #[trigger] ecs.bundle_of(e),
                    ),
                forall|e: u32|
                    old(ecs).has_entity(e) && old(ecs).bundle_of(e).hierarchy is None
                        ==> #[trigger] ecs.bundle_of(e) == old(ecs).bundle_of(e),
                forall|e: u32|
                    old(ecs).has_entity(e) ==> match #[trigger] ecs.bundle_of(e).hierarchy {
                        Some(link) => old(ecs).bundle_of(e).hierarchy == Some(link),
                        None => true,
                    },
                forall|e: u32|
                    #[trigger] keeps_link(*old(ecs), e) && resolved@.contains(e)
                        ==> ecs.bundle_of(e).hierarchy == old(ecs).bundle_of(e).hierarchy,
                ecs.entity_manager == old(ecs).entity_manager,
                ecs.tag_manager == old(ecs).tag_manager,
                ecs.event_bus == old(ecs).event_bus,
            decreases count - i,
        {
            let ghost pre = *ecs;
            let ghost pre_resolved = resolved@;
            let out = Self::resolve_entity(
                ecs,
                entities[i],
                &mut resolved,
                &mut visiting,
                Ghost(rank),
                Ghost(counter),
            );
            proof {
                rank = out.0@;
                counter = out.1@;
                assert forall|e: u32|
                    old(ecs).has_entity(e) implies resolver_step(
                    old(ecs).bundle_of(e),
                    #[trigger] ecs.bundle_of(e),
                ) by {
                    if pre_resolved.contains(e) {
                        assert(ecs.bundle_of(e) == pre.bundle_of(e));
                    } else {
                        assert(pre.bundle_of(e) == old(ecs).bundle_of(e));
                    }
                }
                assert forall|e: u32|
                    #[trigger] keeps_link(*old(ecs), e) && resolved@.contains(e)
                        implies ecs.bundle_of(e).hierarchy == old(ecs).bundle_of(e).hierarchy by {
                    if pre_resolved.contains(e) {
                        assert(ecs.bundle_of(e) == pre.bundle_of(e));
                    } else {
                        assert(pre.bundle_of(e) == old(ecs).bundle_of(e));
                        let link = old(ecs).bundle_of(e).hierarchy->Some_0;
                        assert(old(ecs).bundle_of(link.parent).hierarchy is None);
                        assert(pre.bundle_of(link.parent) == old(ecs).bundle_of(link.parent));
                        assert(keeps_link(pre, e));
                    }
                }
            }
            i += 1;
        }
        proof {
            assert forall|e: u32|
                ecs.has_entity(e) && ecs.bundle_of(e).hierarchy is Some implies
                composed_with_parent(*ecs, e) && resolved@.contains(e) by {
                let link = ecs.bundle_of(e).hierarchy->Some_0;
                assert(old(ecs).bundle_of(e).hierarchy == Some(link));
                assert(entities@.contains(e));
                let j = choose|j: int| 0 <= j < entities@.len() && entities@[j] == e;
                assert(resolved@.contains(e));
            }
            assert forall|a: u32, b: u32|
                !(linked_to(*ecs, a, b) && #[trigger] linked_to(*ecs, b, a)) by {
                if linked_to(*ecs, a, b) && linked_to(*ecs, b, a) {
                    assert(resolved@.contains(a) && resolved@.contains(b));
                    assert(ecs.bundle_of(a).hierarchy->Some_0.parent == b);
                    assert(ecs.bundle_of(b).hierarchy->Some_0.parent == a);
                    assert(ecs.bundle_of(b).hierarchy is Some);
                    assert(rank[b] < rank[a]);
                    assert(rank[a] < rank[b]);
                }
            }
        }
    }

    /// Every entity living in a table that has a parent-link column —
    /// which covers every entity carrying a parent-link.
    fn collect_entities_with_hierarchy(ecs: &ECS) -> (r: Vec<u32>)
        requires
            ecs.wf(),
        ensures
            forall|j: int| 0 <= j < r@.len() ==> ecs.has_entity(#[trigger] r@[j]),
            forall|e: u32|
                ecs.has_entity(e) && ecs.bundle_of(e).hierarchy is Some ==> r@.contains(e),
    {
        let mut entities: Vec<u32> = Vec::new();
        let tables = ecs.archetypes.len();
        let mut a: usize = 0;
        while a < tables
            invariant
                ecs.wf(),
                tables == ecs.archetypes@.len(),
                a <= tables,
                forall|j: int| 0 <= j < entities@.len() ==> ecs.has_entity(#[trigger] entities@[j]),
                forall|t: int, k: int|
                    0 <= t < a && 0 <= k < ecs.archetypes@[t].spec_len()
                        && #[trigger] ecs.archetypes@[t].bundle_at(k).hierarchy is Some
                        ==> entities@.contains(ecs.archetypes@[t].entity_ids@[k]),
            decreases tables - a,
        {
            if ecs.archetypes[a].hierarchies.is_some() {
                let rows = ecs.archetypes[a].entity_ids.len();
                let mut k: usize = 0;
                while k < rows
                    invariant
                        ecs.wf(),
                        a < ecs.archetypes@.len(),
                        rows == ecs.archetypes@[a as int].spec_len(),
                        k <= rows,
                        forall|j: int|
                            0 <= j < entities@.len() ==> ecs.has_entity(#[trigger] entities@[j]),
                        forall|t: int, kk: int|
                            0 <= t < a && 0 <= kk < ecs.archetypes@[t].spec_len()
                                && #[trigger] ecs.archetypes@[t].bundle_at(kk).hierarchy is Some
                                ==> entities@.contains(ecs.archetypes@[t].entity_ids@[kk]),
                        forall|kk: int|
                            0 <= kk < k ==> entities@.contains(
                                #[trigger] ecs.archetypes@[a as int].entity_ids@[kk],
                            ),
                    decreases rows - k,
                {
                    let ghost prev = entities@;
                    let id = ecs.archetypes[a].entity_ids[k];
                    proof {
                        assert(ecs.entity_to_location@.contains_key(id));
                    }
                    entities.push(id);
                    proof {
                        assert forall|j: int|
                            0 <= j < entities@.len() implies ecs.has_entity(
                            #[trigger] entities@[j],
                        ) by {
                            if j < prev.len() {
                                assert(entities@[j] == prev[j]);
                            } else {
                                assert(entities@[j] == id);
                            }
                        }
                        assert forall|t: int, kk: int|
                            0 <= t < a && 0 <= kk < ecs.archetypes@[t].spec_len()
                                && #[trigger] ecs.archetypes@[t].bundle_at(kk).hierarchy is Some
                                implies entities@.contains(
                            ecs.archetypes@[t].entity_ids@[kk],
                        ) by {
                            assert(prev.contains(ecs.archetypes@[t].entity_ids@[kk]));
                            let q = choose|q: int|
                                0 <= q < prev.len() && prev[q] == ecs.archetypes@[t].entity_ids@[kk];
                            assert(entities@[q] == prev[q]);
                        }
                        assert forall|kk: int| 0 <= kk < k + 1 implies entities@.contains(
                            #[trigger] ecs.archetypes@[a as int].entity_ids@[kk],
                        ) by {
                            if kk < k {
                                assert(prev.contains(ecs.archetypes@[a as int].entity_ids@[kk]));
                                let q = choose|q: int|
                                    0 <= q < prev.len() && prev[q]
                                        == ecs.archetypes@[a as int].entity_ids@[kk];
                                assert(entities@[q] == prev[q]);
                            } else {
                                assert(entities@[prev.len() as int] == id);
                            }
                        }
                    }
                    k += 1;
                }
            }
            a += 1;
        }
        proof {
            assert forall|e: u32|
                ecs.has_entity(e) && ecs.bundle_of(e).hierarchy is Some implies entities@.contains(
                e,
            ) by {
                let loc = ecs.entity_to_location@[e];
                assert(ecs.archetypes@[loc.0 as int].bundle_at(loc.1 as int).hierarchy is Some);
                assert(ecs.archetypes@[loc.0 as int].entity_ids@[loc.1 as int] == e);
            }
        }
        entities
    }

    /// Resolves one entity: parents first, then the composition of this
    /// entity's offsets with the parent's world transform. Cycles,
    /// self-parenting and dangling parents drop the entity's link, and
    /// the entity keeps its last computed world transform. The ghost
    /// rank records each entity's completion order, so a resolved
    /// entity's surviving link always points at an earlier-completed
    /// (or link-free) parent.
    fn resolve_entity(
        ecs: &mut ECS,
        entity_id: u32,
        resolved: &mut HashSet<u32>,
        visiting: &mut HashSet<u32>,
        rank: Ghost<Map<u32, nat>>,
        counter: Ghost<nat>,
    ) -> (out: (Ghost<Map<u32, nat>>, Ghost<nat>))
        requires
            old(ecs).wf(),
            old(visiting)@.finite(),
            old(visiting)@.subset_of(old(ecs).live()),
            pass_inv(*old(ecs), old(resolved)@, old(visiting)@, rank@, counter@),
        ensures
            final(ecs).wf(),
            final(visiting)@ == old(visiting)@,
            old(resolved)@.subset_of(final(resolved)@),
            final(resolved)@.contains(entity_id),
            pass_inv(*final(ecs), final(resolved)@, old(visiting)@, out.0@, out.1@),
            rank@.submap_of(out.0@),
            counter@ <= out.1@,
            forall|e: u32| final(ecs).has_entity(e) == old(ecs).has_entity(e),
            forall|x: u32|
                old(resolved)@.contains(x) && old(ecs).has_entity(x) ==> final(ecs).bundle_of(x)
                    == old(ecs).bundle_of(x),
            forall|e: u32|
                old(ecs).has_entity(e) && !final(resolved)@.contains(e) ==> final(ecs).bundle_of(
                    e,
                ) == old(ecs).bundle_of(e),
            forall|e: u32|
                old(ecs).has_entity(e) ==> resolver_step(
                    old(ecs).bundle_of(e),
                    final(ecs).bundle_of(e),
                ),
            forall|e: u32|
                old(ecs).has_entity(e) && old(ecs).bundle_of(e).hierarchy is None ==> final(ecs).bundle_of(e) == old(ecs).bundle_of(e),
            forall|e: u32|
                old(ecs).has_entity(e) ==> match final(ecs).bundle_of(e).hierarchy {
                    Some(link) => old(ecs).bundle_of(e).hierarchy == Some(link),
                    None => true,
                },
            forall|f: u32|
                #[trigger] keeps_link(*old(ecs), f) && !old(resolved)@.contains(f) && !old(
                    visiting,
                )@.contains(f) && final(resolved)@.contains(f) ==> final(ecs).bundle_of(
                    f,
                ).hierarchy == old(ecs).bundle_of(f).hierarchy,
            final(ecs).entity_manager == old(ecs).entity_manager,
            final(ecs).tag_manager == old(ecs).tag_manager,
            final(ecs).event_bus == old(ecs).event_bus,
        decreases old(ecs).live().len() - old(visiting)@.len(),
    {
        proof {
            lemma_len_subset(old(visiting)@, old(ecs).live());
        }
        if resolved.contains(&entity_id) {
            return (rank, counter);
        }
        let newly = visiting.insert(entity_id);
        if !newly {
            // Cycle detected: detach this entity from its parent; it
            // keeps its last computed world transform.
            ecs.remove_hierarchy_component(entity_id);
            resolved.insert(entity_id);
            proof {
                assert(visiting@ =~= old(visiting)@);
                assert(pass_inv(
                    *ecs,
                    resolved@,
                    old(visiting)@,
                    rank@.insert(entity_id, counter@),
                    counter@ + 1,
                )) by {
                    assert forall|x: u32|
                        #[trigger] resolved@.contains(x) && ecs.has_entity(x) && x != entity_id
                            implies old(resolved)@.contains(x) && ecs.bundle_of(x) == old(ecs).bundle_of(x) by {}
                }
            }
            proof {
                assert(rank@.insert(entity_id, counter@).dom() =~= rank@.dom().insert(entity_id));
            }
            return (Ghost(rank@.insert(entity_id, counter@)), Ghost(counter@ + 1));
        }
        let link = match ecs.hierarchy_component(entity_id) {
            Some(component) => *component,
            None => {
                visiting.remove(&entity_id);
                resolved.insert(entity_id);
                proof {
                    assert(visiting@ =~= old(visiting)@);
                    assert(rank@.insert(entity_id, counter@).dom() =~= rank@.dom().insert(
                        entity_id,
                    ));
                }
                return (Ghost(rank@.insert(entity_id, counter@)), Ghost(counter@ + 1));
            },
        };
        if link.parent == entity_id {
            // Self-parenting is rejected by dropping the link; the
            // entity keeps its last computed world transform.
            ecs.remove_hierarchy_component(entity_id);
            visiting.remove(&entity_id);
            resolved.insert(entity_id);
            proof {
                assert(visiting@ =~= old(visiting)@);
                assert forall|x: u32|
                    #[trigger] resolved@.contains(x) && ecs.has_entity(x) && x != entity_id
                        implies old(resolved)@.contains(x) && ecs.bundle_of(x) == old(ecs).bundle_of(x) by {}
            }
            return (Ghost(rank@.insert(entity_id, counter@)), Ghost(counter@ + 1));
        }
        let parent_linked = match ecs.hierarchy_component(link.parent) {
            Some(_) => true,
            None => false,
        };
        let rank_now: Ghost<Map<u32, nat>>;
        let counter_now: Ghost<nat>;
        if parent_linked {
            proof {
                assert(ecs.has_entity(entity_id));
                assert(visiting@.subset_of(ecs.live()));
                assert(ecs.live() == old(ecs).live());
                assert(visiting@.len() == old(visiting)@.len() + 1);
                lemma_len_subset(visiting@, ecs.live());
                assert(pass_inv(*ecs, resolved@, visiting@, rank@, counter@)) by {
                    assert forall|x: u32|
                        #[trigger] resolved@.contains(x) && ecs.has_entity(x) && visiting@.contains(
                            x,
                        ) implies ecs.bundle_of(x).hierarchy is None by {
                        assert(x != entity_id);
                        assert(old(visiting)@.contains(x));
                    }
                }
            }
            let out_p = Self::resolve_entity(ecs, link.parent, resolved, visiting, rank, counter);
            rank_now = out_p.0;
            counter_now = out_p.1;
        } else {
            proof {
                assert(pass_inv(*ecs, resolved@, visiting@, rank@, counter@)) by {
                    assert forall|x: u32|
                        #[trigger] resolved@.contains(x) && ecs.has_entity(x) && visiting@.contains(
                            x,
                        ) implies ecs.bundle_of(x).hierarchy is None by {
                        assert(x != entity_id);
                        assert(old(visiting)@.contains(x));
                    }
                }
            }
            rank_now = rank;
            counter_now = counter;
        }
        let ghost state_after = *ecs;
        let ghost res_after = resolved@;
        // The recursion may have broken a cycle through this entity and
        // dropped its link; then it is already resolved and keeps its
        // last computed world transform.
        let link_now = match ecs.hierarchy_component(entity_id) {
            Some(component) => Some(*component),
            None => None,
        };
        match link_now {
            None => {
                visiting.remove(&entity_id);
                resolved.insert(entity_id);
                proof {
                    assert(visiting@ =~= old(visiting)@);
                    assert(res_after.contains(entity_id)) by {
                        if !res_after.contains(entity_id) {
                            assert(state_after.bundle_of(entity_id) == old(ecs).bundle_of(
                                entity_id,
                            ));
                        }
                    }
                    assert(resolved@ =~= res_after);
                    assert(pass_inv(*ecs, resolved@, old(visiting)@, rank_now@, counter_now@)) by {
                        assert forall|x: u32|
                            #[trigger] resolved@.contains(x) && ecs.has_entity(x) && old(visiting)@.contains(x) implies ecs.bundle_of(x).hierarchy is None by {
                            assert(x != entity_id);
                            assert(visiting@.insert(entity_id).contains(x));
                        }
                    }
                }
                (rank_now, counter_now)
            },
            Some(link_kept) => {
                proof {
                    // Links are never added or replaced, so the link
                    // that survived the recursion is the one read first.
                    assert(link_kept == link);
                    // A resolved entity still on the path has no link,
                    // so this entity is not yet resolved.
                    assert(!res_after.contains(entity_id)) by {
                        if res_after.contains(entity_id) {
                            assert(visiting@.contains(entity_id));
                            assert(state_after.bundle_of(entity_id).hierarchy is None);
                        }
                    }
                }
                let mut parent_transform: Option<(Position, Orientation)> = None;
                match ecs.find_entity_components(link.parent) {
                    Some((p, o, _)) => {
                        parent_transform = Some((*p, *o));
                    },
                    None => {},
                }
                match parent_transform {
                    Some((parent_position, parent_orientation)) => {
                        let (world_position, world_orientation) = link.compose_with_parent(
                            parent_position,
                            parent_orientation,
                        );
                        let _ = ecs.set_position(entity_id, world_position);
                        let _ = ecs.set_orientation(entity_id, world_orientation);
                        visiting.remove(&entity_id);
                        resolved.insert(entity_id);
                        proof {
                            assert(visiting@ =~= old(visiting)@);
                            assert(ecs.bundle_of(entity_id) == (EntityComponents {
                                position: world_position,
                                orientation: world_orientation,
                                ..state_after.bundle_of(entity_id)
                            }));
                            let rank2 = rank_now@.insert(entity_id, counter_now@);
                            assert(rank2.dom() =~= rank_now@.dom().insert(entity_id));
                            assert(pass_inv(
                                *ecs,
                                resolved@,
                                old(visiting)@,
                                rank2,
                                counter_now@ + 1,
                            )) by {
                                assert forall|x: u32|
                                    #[trigger] resolved@.contains(x) && ecs.has_entity(x) implies {
                                    &&& composed_with_parent(*ecs, x)
                                    &&& rank2.contains_key(x) && rank2[x] < counter_now@ + 1
                                    &&& (match ecs.bundle_of(x).hierarchy {
                                        Some(l2) => ecs.bundle_of(l2.parent).hierarchy is None || (
                                        resolved@.contains(l2.parent) && rank2.contains_key(
                                            l2.parent,
                                        ) && rank2[l2.parent] < rank2[x]),
                                        None => true,
                                    })
                                    &&& (old(visiting)@.contains(x) ==> ecs.bundle_of(
                                        x,
                                    ).hierarchy is None)
                                } by {
                                    if x == entity_id {
                                        assert(ecs.bundle_of(entity_id).hierarchy == Some(link));
                                        assert(link.parent != entity_id);
                                        assert(ecs.bundle_of(link.parent) == state_after.bundle_of(
                                            link.parent,
                                        ));
                                        assert(composed_with_parent(*ecs, x));
                                        assert(rank2[entity_id] == counter_now@);
                                        if parent_linked {
                                            assert(res_after.contains(link.parent));
                                            assert(rank_now@.contains_key(link.parent)
                                                && rank_now@[link.parent] < counter_now@);
                                            assert(rank2[link.parent] < rank2[entity_id]);
                                        } else {
                                            assert(state_after.bundle_of(
                                                link.parent,
                                            ).hierarchy is None);
                                            assert(ecs.bundle_of(link.parent).hierarchy is None);
                                        }
                                        assert(!old(visiting)@.contains(entity_id));
                                    } else {
                                        assert(res_after.contains(x));
                                        assert(ecs.bundle_of(x) == state_after.bundle_of(x));
                                        assert(composed_with_parent(state_after, x));
                                        assert(rank_now@.contains_key(x) && rank_now@[x]
                                            < counter_now@);
                                        assert(rank2.contains_key(x) && rank2[x] == rank_now@[x]);
                                        match state_after.bundle_of(x).hierarchy {
                                            Some(l2) => {
                                                assert(l2.parent != entity_id) by {
                                                    if l2.parent == entity_id {
                                                        assert(state_after.bundle_of(
                                                            entity_id,
                                                        ).hierarchy is Some);
                                                        assert(!res_after.contains(entity_id));
                                                    }
                                                }
                                                assert(ecs.bundle_of(l2.parent)
                                                    == state_after.bundle_of(l2.parent));
                                                assert(composed_with_parent(*ecs, x));
                                                if !(state_after.bundle_of(
                                                    l2.parent,
                                                ).hierarchy is None) {
                                                    assert(res_after.contains(l2.parent)
                                                        && rank_now@.contains_key(l2.parent)
                                                        && rank_now@[l2.parent] < rank_now@[x]);
                                                    assert(rank2[l2.parent] < rank2[x]);
                                                }
                                            },
                                            None => {
                                                assert(composed_with_parent(*ecs, x));
                                            },
                                        }
                                    }
                                }
                            }
                        }
                        (Ghost(rank_now@.insert(entity_id, counter_now@)), Ghost(counter_now@ + 1))
                    },
                    None => {
                        // The parent no longer exists: drop the dangling
                        // link; the entity keeps its last transform.
                        ecs.remove_hierarchy_component(entity_id);
                        visiting.remove(&entity_id);
                        resolved.insert(entity_id);
                        proof {
                            assert(visiting@ =~= old(visiting)@);
                            assert forall|x: u32|
                                #[trigger] resolved@.contains(x) && ecs.has_entity(x) && x
                                    != entity_id implies res_after.contains(x) && ecs.bundle_of(x)
                                == state_after.bundle_of(x) by {}
                            assert(rank_now@.insert(entity_id, counter_now@).dom()
                                =~= rank_now@.dom().insert(entity_id));
                        }
                        (Ghost(rank_now@.insert(entity_id, counter_now@)), Ghost(counter_now@ + 1))
                    },
                }
            },
        }
    }
}

} // verus!
