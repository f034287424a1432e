use rust_game::components::{
    AttributesComponent, HierarchyComponent, LightComponent, ModelComponent, Name, Orientation,
    Position, RenderComponent, TextureComponent,
};
use rust_game::ecs::{ComponentKind, ECS};
use rust_game::systems::HierarchySystem;
use std::collections::HashSet;

fn position(x: f32, y: f32, z: f32) -> Position {
    Position::new(x.to_bits(), y.to_bits(), z.to_bits())
}

fn spawn(ecs: &mut ECS, name: &str) -> u32 {
    ecs.add_entity(
        position(0.0, 0.0, 0.0),
        Orientation::identity(),
        Name(name.to_string()),
    )
}

fn readable_kinds(ecs: &ECS, id: u32) -> HashSet<u32> {
    let kinds = [
        ComponentKind::Render,
        ComponentKind::Input,
        ComponentKind::Model,
        ComponentKind::Camera,
        ComponentKind::Light,
        ComponentKind::Texture,
        ComponentKind::Terrain,
        ComponentKind::Script,
        ComponentKind::Physics,
        ComponentKind::Hierarchy,
        ComponentKind::Attributes,
        ComponentKind::ParticleEmitter,
        ComponentKind::Particle,
    ];
    let (archetype_index, _) = ecs.entity_to_location[&id];
    let signature = ecs.archetypes[archetype_index].signature;
    let mut readable = HashSet::new();
    for (bit, kind) in kinds.iter().enumerate() {
        if signature.contains(*kind) {
            readable.insert(bit as u32);
        }
    }
    readable
}

#[test]
fn component_set_matches_reference_replay() {
    let mut ecs = ECS::new();
    let id = spawn(&mut ecs, "subject");
    let mut reference: HashSet<u32> = HashSet::new();

    // Replay one interleaved attach/detach history against both the
    // store and a plain reference set, comparing after every step.
    ecs.add_render_component(
        id,
        RenderComponent::new([0; 3], 0),
    );
    reference.insert(0);
    assert_eq!(readable_kinds(&ecs, id), reference);

    ecs.add_model_component(id, ModelComponent::new("assets/cube.obj".to_string()));
    reference.insert(2);
    assert_eq!(readable_kinds(&ecs, id), reference);

    ecs.add_texture_component(id, TextureComponent::new("a.png".to_string()));
    reference.insert(5);
    assert_eq!(readable_kinds(&ecs, id), reference);

    ecs.remove_model_component(id);
    reference.remove(&2);
    assert_eq!(readable_kinds(&ecs, id), reference);

    ecs.remove_model_component(id);
    assert_eq!(readable_kinds(&ecs, id), reference);

    ecs.add_render_component(
        id,
        RenderComponent::new([1; 3], 1),
    );
    assert_eq!(readable_kinds(&ecs, id), reference);

    ecs.remove_render_component(id);
    reference.remove(&0);
    assert_eq!(readable_kinds(&ecs, id), reference);

    ecs.remove_texture_component(id);
    reference.remove(&5);
    assert_eq!(readable_kinds(&ecs, id), reference);
    assert!(reference.is_empty());
}

#[test]
fn swap_remove_relocates_last_row_and_updates_location() {
    let mut ecs = ECS::new();
    let first = spawn(&mut ecs, "first");
    let second = spawn(&mut ecs, "second");
    let third = spawn(&mut ecs, "third");

    let (table, first_row) = ecs.entity_to_location[&first];
    assert_eq!(first_row, 0);
    assert_eq!(ecs.entity_to_location[&third], (table, 2));

    // Removing the row of `first` moves the last row (`third`) into it.
    ecs.remove_entity(first);
    assert_eq!(ecs.entity_to_location[&third], (table, 0));
    assert_eq!(ecs.entity_to_location[&second], (table, 1));
    assert_eq!(ecs.archetypes[table].entity_ids, vec![third, second]);
}

#[test]
fn destroying_sole_freed_identity_revives_it_then_fresh_ids_increase() {
    let mut ecs = ECS::new();
    let a = spawn(&mut ecs, "a");
    let b = spawn(&mut ecs, "b");
    assert_ne!(a, b);

    ecs.remove_entity(a);
    let revived = spawn(&mut ecs, "revived");
    assert_eq!(revived, a);

    // The pool is exhausted again: fresh identifiers strictly increase.
    let c = spawn(&mut ecs, "c");
    let d = spawn(&mut ecs, "d");
    assert!(c > b);
    assert!(d > c);
}

#[test]
fn two_entity_cycle_resolves_in_one_pass() {
    let mut ecs = ECS::new();
    let a = spawn(&mut ecs, "a");
    let b = spawn(&mut ecs, "b");

    ecs.add_hierarchy_component(
        a,
        HierarchyComponent::new(b, position(1.0, 0.0, 0.0), Orientation::identity()),
    );
    ecs.add_hierarchy_component(
        b,
        HierarchyComponent::new(a, position(0.0, 1.0, 0.0), Orientation::identity()),
    );

    HierarchySystem::update(&mut ecs);

    let a_linked = ecs.hierarchy_component(a).is_some();
    let b_linked = ecs.hierarchy_component(b).is_some();
    assert!(!a_linked || !b_linked);
    assert!(ecs.find_entity_components(a).is_some());
    assert!(ecs.find_entity_components(b).is_some());
}

#[test]
fn yawed_parent_rotates_child_offset() {
    let mut ecs = ECS::new();
    let parent = spawn(&mut ecs, "parent");
    let child = spawn(&mut ecs, "child");

    assert!(ecs.set_position(parent, position(2.0, 1.0, -1.0)));
    let yaw = glam::Quat::from_rotation_y(std::f32::consts::FRAC_PI_2);
    let parent_orientation = Orientation::from_quat(
        yaw.x.to_bits(),
        yaw.y.to_bits(),
        yaw.z.to_bits(),
        yaw.w.to_bits(),
    );
    assert!(ecs.set_orientation(parent, parent_orientation));

    ecs.add_hierarchy_component(
        child,
        HierarchyComponent::new(parent, position(1.0, 0.0, 0.0), Orientation::identity()),
    );

    HierarchySystem::update(&mut ecs);

    let (child_position, _, _) = ecs.find_entity_components(child).expect("child missing");
    // The +X offset, rotated by a +90 degree yaw about Y, points down -Z.
    assert!((f32::from_bits(child_position.x) - 2.0).abs() < 1e-5);
    assert!((f32::from_bits(child_position.y) - 1.0).abs() < 1e-5);
    assert!((f32::from_bits(child_position.z) - -2.0).abs() < 1e-5);
}

#[derive(Debug, PartialEq, Eq)]
struct FooEvent(&'static str);

#[derive(Debug, PartialEq, Eq)]
struct BarEvent(u32);

#[test]
fn publishing_foo_and_bar_then_draining_foo_keeps_bar() {
    let mut ecs = ECS::new();
    ecs.emit_event(FooEvent("one"));
    ecs.emit_event(FooEvent("two"));
    ecs.emit_event(BarEvent(7));
    ecs.emit_event(FooEvent("three"));

    let foos = ecs.drain_events::<FooEvent>();
    assert_eq!(foos, vec![FooEvent("one"), FooEvent("two"), FooEvent("three")]);

    let bars = ecs.drain_events::<BarEvent>();
    assert_eq!(bars, vec![BarEvent(7)]);
}

#[test]
fn destroying_a_parent_detaches_children_without_destroying_them() {
    let mut ecs = ECS::new();
    let parent = spawn(&mut ecs, "parent");
    let child = spawn(&mut ecs, "child");
    let bystander = spawn(&mut ecs, "bystander");

    ecs.add_hierarchy_component(
        child,
        HierarchyComponent::new(parent, position(0.0, 0.0, 0.0), Orientation::identity()),
    );
    ecs.add_hierarchy_component(
        bystander,
        HierarchyComponent::new(child, position(0.0, 0.0, 0.0), Orientation::identity()),
    );

    ecs.remove_entity(parent);

    assert!(ecs.find_entity_components(parent).is_none());
    assert!(ecs.hierarchy_component(child).is_none());
    let bystander_link = ecs.hierarchy_component(bystander).expect("link dropped");
    assert_eq!(bystander_link.parent, child);
}

#[test]
fn find_entity_id_by_name_returns_a_match() {
    let mut ecs = ECS::new();
    let _a = spawn(&mut ecs, "alpha");
    let b = spawn(&mut ecs, "beta");
    assert_eq!(ecs.find_entity_id_by_name("beta"), Some(b));
    assert_eq!(ecs.find_entity_id_by_name("gamma"), None);
}

#[test]
fn attributes_store_reads_back_written_values() {
    let mut attributes = AttributesComponent::new();
    attributes.set("health", 5.0f32.to_bits());
    attributes.set("ammo", 12.0f32.to_bits());
    assert_eq!(attributes.get("health"), Some(5.0f32.to_bits()));
    attributes.set("health", 3.0f32.to_bits());
    assert_eq!(attributes.get("health"), Some(3.0f32.to_bits()));
    assert_eq!(attributes.remove("ammo"), Some(12.0f32.to_bits()));
    assert!(!attributes.contains("ammo"));
    assert_eq!(attributes.get("missing"), None);
}

#[test]
fn directional_light_normalizes_direction() {
    let light = LightComponent::directional(
        [3.0f32.to_bits(), 0.0f32.to_bits(), 4.0f32.to_bits()],
        [1.0f32.to_bits(), 1.0f32.to_bits(), 1.0f32.to_bits()],
        2.0f32.to_bits(),
    );
    assert!((f32::from_bits(light.direction[0]) - 0.6).abs() < 1e-6);
    assert!((f32::from_bits(light.direction[2]) - 0.8).abs() < 1e-6);
    assert_eq!(f32::from_bits(light.intensity), 2.0);
}
