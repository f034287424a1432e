//! Archetype tables: columnar storage for all entities sharing one
//! component signature.
//!
//! A table keeps one ordered list of entity identities and, per column,
//! exactly one value per identity at the same row index. The mandatory
//! columns (position, orientation, name) exist in every table; each
//! optional column exists exactly when the table's signature contains
//! its kind. Rows are removed by swap-remove: the last row moves into
//! the vacated slot, so the columns stay densely packed.

use crate::components::{
    AttributesComponent, CameraComponent, HierarchyComponent, InputComponent, LightComponent,
    ModelComponent, Name, Orientation, ParticleComponent, ParticleEmitterComponent,
    PhysicsComponent, Position, RenderComponent, ScriptComponent, TerrainComponent,
    TextureComponent,
};
use crate::ecs::{ComponentKind, ComponentSignature};
use vstd::prelude::*;

verus! {

/// One entity's complete data, as it travels between tables during a
/// migration: the identity, the three mandatory values, and one optional
/// slot per component kind.
#[derive(Debug, Clone, PartialEq)]
pub struct EntityComponents {
    pub id: u32,
    pub position: Position,
    pub orientation: Orientation,
    pub name: Name,
    pub render: Option<RenderComponent>,
    pub input: Option<InputComponent>,
    pub model: Option<ModelComponent>,
    pub camera: Option<CameraComponent>,
    pub light: Option<LightComponent>,
    pub texture: Option<TextureComponent>,
    pub terrain: Option<TerrainComponent>,
    pub script: Option<ScriptComponent>,
    pub physics: Option<PhysicsComponent>,
    pub hierarchy: Option<HierarchyComponent>,
    pub attributes: Option<AttributesComponent>,
    pub particle_emitters: Option<ParticleEmitterComponent>,
    pub particles: Option<ParticleComponent>,
}

impl EntityComponents {
    /// Which optional slot is filled for each component kind.
    pub open spec fn slot_filled(self, kind: ComponentKind) -> bool {
        match kind {
            ComponentKind::Render => self.render is Some,
            ComponentKind::Input => self.input is Some,
            ComponentKind::Model => self.model is Some,
            ComponentKind::Camera => self.camera is Some,
            ComponentKind::Light => self.light is Some,
            ComponentKind::Texture => self.texture is Some,
            ComponentKind::Terrain => self.terrain is Some,
            ComponentKind::Script => self.script is Some,
            ComponentKind::Physics => self.physics is Some,
            ComponentKind::Hierarchy => self.hierarchy is Some,
            ComponentKind::Attributes => self.attributes is Some,
            ComponentKind::ParticleEmitter => self.particle_emitters is Some,
            ComponentKind::Particle => self.particles is Some,
        }
    }

    /// Whether the bundle carries exactly the components of `signature`:
    /// no slot missing, no slot the signature lacks.
    pub open spec fn matches(self, signature: ComponentSignature) -> bool {
        forall|kind: ComponentKind| self.slot_filled(kind) == signature.has(kind)
    }

    /// A bundle with the mandatory values only; every optional slot is
    /// empty, so it matches the empty signature.
    pub fn base(id: u32, position: Position, orientation: Orientation, name: Name) -> (r: Self)
        ensures
            r.id == id,
            r.position == position,
            r.orientation == orientation,
            r.name == name,
            forall|kind: ComponentKind| !r.slot_filled(kind),
    {
        let r = EntityComponents {
            id,
            position,
            orientation,
            name,
            render: None,
            input: None,
            model: None,
            camera: None,
            light: None,
            texture: None,
            terrain: None,
            script: None,
            physics: None,
            hierarchy: None,
            attributes: None,
            particle_emitters: None,
            particles: None,
        };
        proof {
            assert forall|kind: ComponentKind| !r.slot_filled(kind) by {}
        }
        r
    }
}

/// Columnar storage for every entity whose component set equals one
/// signature. All columns always have exactly the same length as the
/// identity list.
#[derive(Debug)]
pub struct Archetype {
    pub signature: ComponentSignature,
    pub entity_ids: Vec<u32>,
    pub positions: Vec<Position>,
    pub orientations: Vec<Orientation>,
    pub names: Vec<Name>,
    pub renderables: Option<Vec<RenderComponent>>,
    pub inputs: Option<Vec<InputComponent>>,
    pub models: Option<Vec<ModelComponent>>,
    pub cameras: Option<Vec<CameraComponent>>,
    pub lights: Option<Vec<LightComponent>>,
    pub textures: Option<Vec<TextureComponent>>,
    pub terrains: Option<Vec<TerrainComponent>>,
    pub scripts: Option<Vec<ScriptComponent>>,
    pub physics: Option<Vec<PhysicsComponent>>,
    pub hierarchies: Option<Vec<HierarchyComponent>>,
    pub attributes: Option<Vec<AttributesComponent>>,
    pub particle_emitters: Option<Vec<ParticleEmitterComponent>>,
    pub particles: Option<Vec<ParticleComponent>>,
}

/// Whether an optional column is present exactly when the signature
/// holds its kind, and, when present, as long as the identity list.
pub open spec fn column_wf<T>(column: Option<Vec<T>>, present: bool, len: nat) -> bool {
    &&& (column is Some) == present
    &&& (column is Some ==> column->Some_0@.len() == len)
}

/// The value an optional column holds at `row`, when present.
pub open spec fn column_at<T>(column: Option<Vec<T>>, row: int) -> Option<T> {
    match column {
        Some(c) => Some(c@[row]),
        None => None,
    }
}

impl Archetype {
    /// The number of rows.
    pub open spec fn spec_len(self) -> nat {
        self.entity_ids@.len()
    }

    /// Well-formedness: every column has exactly the same length as the
    /// identity list, and each optional column is present exactly when
    /// the signature contains its kind.
    pub open spec fn wf(self) -> bool {
        &&& self.positions@.len() == self.spec_len()
        &&& self.orientations@.len() == self.spec_len()
        &&& self.names@.len() == self.spec_len()
        &&& column_wf(self.renderables, self.signature.has(ComponentKind::Render), self.spec_len())
        &&& column_wf(self.inputs, self.signature.has(ComponentKind::Input), self.spec_len())
        &&& column_wf(self.models, self.signature.has(ComponentKind::Model), self.spec_len())
        &&& column_wf(self.cameras, self.signature.has(ComponentKind::Camera), self.spec_len())
        &&& column_wf(self.lights, self.signature.has(ComponentKind::Light), self.spec_len())
        &&& column_wf(self.textures, self.signature.has(ComponentKind::Texture), self.spec_len())
        &&& column_wf(self.terrains, self.signature.has(ComponentKind::Terrain), self.spec_len())
        &&& column_wf(self.scripts, self.signature.has(ComponentKind::Script), self.spec_len())
        &&& column_wf(self.physics, self.signature.has(ComponentKind::Physics), self.spec_len())
        &&& column_wf(
            self.hierarchies,
            self.signature.has(ComponentKind::Hierarchy),
            self.spec_len(),
        )
        &&& column_wf(
            self.attributes,
            self.signature.has(ComponentKind::Attributes),
            self.spec_len(),
        )
        &&& column_wf(
            self.particle_emitters,
            self.signature.has(ComponentKind::ParticleEmitter),
            self.spec_len(),
        )
        &&& column_wf(self.particles, self.signature.has(ComponentKind::Particle), self.spec_len())
    }

    /// The complete data of the entity at `row`, reassembled as a bundle.
    pub open spec fn bundle_at(self, row: int) -> EntityComponents {
        EntityComponents {
            id: self.entity_ids@[row],
            position: self.positions@[row],
            orientation: self.orientations@[row],
            name: self.names@[row],
            render: column_at(self.renderables, row),
            input: column_at(self.inputs, row),
            model: column_at(self.models, row),
            camera: column_at(self.cameras, row),
            light: column_at(self.lights, row),
            texture: column_at(self.textures, row),
            terrain: column_at(self.terrains, row),
            script: column_at(self.scripts, row),
            physics: column_at(self.physics, row),
            hierarchy: column_at(self.hierarchies, row),
            attributes: column_at(self.attributes, row),
            particle_emitters: column_at(self.particle_emitters, row),
            particles: column_at(self.particles, row),
        }
    }

    /// Every row of a well-formed table matches the table's signature.
    pub proof fn lemma_rows_match(self, row: int)
        requires
            self.wf(),
            0 <= row < self.spec_len(),
        ensures
            self.bundle_at(row).matches(self.signature),
    {
        assert forall|kind: ComponentKind|
            self.bundle_at(row).slot_filled(kind) == self.signature.has(kind) by {}
    }

    /// A fresh, empty table for `signature`: every optional column of a
    /// kind the signature contains is present and empty.
    pub fn new(signature: ComponentSignature) -> (r: Self)
        ensures
            r.wf(),
            r.signature == signature,
            r.spec_len() == 0,
    {
        Archetype {
            signature,
            entity_ids: Vec::new(),
            positions: Vec::new(),
            orientations: Vec::new(),
            names: Vec::new(),
            renderables: if signature.contains(ComponentKind::Render) {
                Some(Vec::new())
            } else {
                None
            },
            inputs: if signature.contains(ComponentKind::Input) {
                Some(Vec::new())
            } else {
                None
            },
            models: if signature.contains(ComponentKind::Model) {
                Some(Vec::new())
            } else {
                None
            },
            cameras: if signature.contains(ComponentKind::Camera) {
                Some(Vec::new())
            } else {
                None
            },
            lights: if signature.contains(ComponentKind::Light) {
                Some(Vec::new())
            } else {
                None
            },
            textures: if signature.contains(ComponentKind::Texture) {
                Some(Vec::new())
            } else {
                None
            },
            terrains: if signature.contains(ComponentKind::Terrain) {
                Some(Vec::new())
            } else {
                None
            },
            scripts: if signature.contains(ComponentKind::Script) {
                Some(Vec::new())
            } else {
                None
            },
            physics: if signature.contains(ComponentKind::Physics) {
                Some(Vec::new())
            } else {
                None
            },
            hierarchies: if signature.contains(ComponentKind::Hierarchy) {
                Some(Vec::new())
            } else {
                None
            },
            attributes: if signature.contains(ComponentKind::Attributes) {
                Some(Vec::new())
            } else {
                None
            },
            particle_emitters: if signature.contains(ComponentKind::ParticleEmitter) {
                Some(Vec::new())
            } else {
                None
            },
            particles: if signature.contains(ComponentKind::Particle) {
                Some(Vec::new())
            } else {
                None
            },
        }
    }

    pub fn len(&self) -> (r: usize)
        ensures
            r == self.spec_len(),
    {
        self.entity_ids.len()
    }

    /// Appends one entity's data as the new last row. The bundle must
    /// carry exactly the components of the table's signature; a caller
    /// handing anything else is defective, so the contract excludes it.
    #[verifier::rlimit(100)]
    pub fn push_entity(&mut self, components: EntityComponents) -> (index: usize)
        requires
            old(self).wf(),
            components.matches(old(self).signature),
        ensures
            final(self).wf(),
            final(self).signature == old(self).signature,
            index == old(self).spec_len(),
            final(self).spec_len() == old(self).spec_len() + 1,
            final(self).bundle_at(index as int) == components,
            forall|i: int|
                0 <= i < old(self).spec_len() ==> final(self).bundle_at(i) == old(self).bundle_at(
                    i,
                ),
    {
        let index = self.entity_ids.len();
        let EntityComponents {
            id,
            position,
            orientation,
            name,
            render,
            input,
            model,
            camera,
            light,
            texture,
            terrain,
            script,
            physics: physics_component,
            hierarchy,
            attributes,
            particle_emitters,
            particles: particle,
        } = components;

        self.entity_ids.push(id);
        self.positions.push(position);
        self.orientations.push(orientation);
        self.names.push(name);
        match &mut self.renderables {
            Some(column) => {
                proof {
                    assert(components.slot_filled(ComponentKind::Render));
                }
                column.push(render.unwrap());
            },
            None => {},
        }
        match &mut self.inputs {
            Some(column) => {
                proof {
                    assert(components.slot_filled(ComponentKind::Input));
                }
                column.push(input.unwrap());
            },
            None => {},
        }
        match &mut self.models {
            Some(column) => {
                proof {
                    assert(components.slot_filled(ComponentKind::Model));
                }
                column.push(model.unwrap());
            },
            None => {},
        }
        match &mut self.cameras {
            Some(column) => {
                proof {
                    assert(components.slot_filled(ComponentKind::Camera));
                }
                column.push(camera.unwrap());
            },
            None => {},
        }
        match &mut self.lights {
            Some(column) => {
                proof {
                    assert(components.slot_filled(ComponentKind::Light));
                }
                column.push(light.unwrap());
            },
            None => {},
        }
        match &mut self.textures {
            Some(column) => {
                proof {
                    assert(components.slot_filled(ComponentKind::Texture));
                }
                column.push(texture.unwrap());
            },
            None => {},
        }
        match &mut self.terrains {
            Some(column) => {
                proof {
                    assert(components.slot_filled(ComponentKind::Terrain));
                }
                column.push(terrain.unwrap());
            },
            None => {},
        }
        match &mut self.scripts {
            Some(column) => {
                proof {
                    assert(components.slot_filled(ComponentKind::Script));
                }
                column.push(script.unwrap());
            },
            None => {},
        }
        match &mut self.physics {
            Some(column) => {
                proof {
                    assert(components.slot_filled(ComponentKind::Physics));
                }
                column.push(physics_component.unwrap());
            },
            None => {},
        }
        match &mut self.hierarchies {
            Some(column) => {
                proof {
                    assert(components.slot_filled(ComponentKind::Hierarchy));
                }
                column.push(hierarchy.unwrap());
            },
            None => {},
        }
        match &mut self.attributes {
            Some(column) => {
                proof {
                    assert(components.slot_filled(ComponentKind::Attributes));
                }
                column.push(attributes.unwrap());
            },
            None => {},
        }
        match &mut self.particle_emitters {
            Some(column) => {
                proof {
                    assert(components.slot_filled(ComponentKind::ParticleEmitter));
                }
                column.push(particle_emitters.unwrap());
            },
            None => {},
        }
        match &mut self.particles {
            Some(column) => {
                proof {
                    assert(components.slot_filled(ComponentKind::Particle));
                }
                column.push(particle.unwrap());
            },
            None => {},
        }
        proof {
            assert(final(self).bundle_at(index as int) == components);
        }
        index
    }

    /// Removes the row at `index` by swapping the last row into its
    /// place, and returns the removed bundle together with the identity
    /// of the entity now occupying `index` (if any entity moved).
    #[verifier::rlimit(100)]
    pub fn swap_remove_entity(&mut self, index: usize) -> (r: (EntityComponents, Option<u32>))
        requires
            old(self).wf(),
            index < old(self).spec_len(),
        ensures
            final(self).wf(),
            final(self).signature == old(self).signature,
            final(self).spec_len() == old(self).spec_len() - 1,
            r.0 == old(self).bundle_at(index as int),
            r.1 == if index < old(self).spec_len() - 1 {
                Some(old(self).entity_ids@[old(self).spec_len() - 1])
            } else {
                None::<u32>
            },
            forall|i: int|
                0 <= i < final(self).spec_len() && i != index ==> final(self).bundle_at(i) == old(
                    self,
                ).bundle_at(i),
            index < final(self).spec_len() ==> final(self).bundle_at(index as int) == old(
                self,
            ).bundle_at(old(self).spec_len() - 1),
    {
        let id = self.entity_ids.swap_remove(index);
        let position = self.positions.swap_remove(index);
        let orientation = self.orientations.swap_remove(index);
        let name = self.names.swap_remove(index);
        let render = match &mut self.renderables {
            Some(column) => Some(column.swap_remove(index)),
            None => None,
        };
        let input = match &mut self.inputs {
            Some(column) => Some(column.swap_remove(index)),
            None => None,
        };
        let model = match &mut self.models {
            Some(column) => Some(column.swap_remove(index)),
            None => None,
        };
        let camera = match &mut self.cameras {
            Some(column) => Some(column.swap_remove(index)),
            None => None,
        };
        let light = match &mut self.lights {
            Some(column) => Some(column.swap_remove(index)),
            None => None,
        };
        let texture = match &mut self.textures {
            Some(column) => Some(column.swap_remove(index)),
            None => None,
        };
        let terrain = match &mut self.terrains {
            Some(column) => Some(column.swap_remove(index)),
            None => None,
        };
        let script = match &mut self.scripts {
            Some(column) => Some(column.swap_remove(index)),
            None => None,
        };
        let physics = match &mut self.physics {
            Some(column) => Some(column.swap_remove(index)),
            None => None,
        };
        let hierarchy = match &mut self.hierarchies {
            Some(column) => Some(column.swap_remove(index)),
            None => None,
        };
        let attributes = match &mut self.attributes {
            Some(column) => Some(column.swap_remove(index)),
            None => None,
        };
        let particle_emitters = match &mut self.particle_emitters {
            Some(column) => Some(column.swap_remove(index)),
            None => None,
        };
        let particle = match &mut self.particles {
            Some(column) => Some(column.swap_remove(index)),
            None => None,
        };

        let swapped_id = if index < self.entity_ids.len() {
            Some(self.entity_ids[index])
        } else {
            None
        };

        (
            EntityComponents {
                id,
                position,
                orientation,
                name,
                render,
                input,
                model,
                camera,
                light,
                texture,
                terrain,
                script,
                physics,
                hierarchy,
                attributes,
                particle_emitters,
                particles: particle,
            },
            swapped_id,
        )
    }
}

} // verus!
