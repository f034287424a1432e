use rust_game::components::{
    CameraComponent, HierarchyComponent, InputComponent, LightComponent, ModelComponent, Name,
    Orientation, Position, RenderComponent, ScriptComponent, TerrainComponent,
};
use rust_game::ecs::ECS;
use rust_game::systems::HierarchySystem;
use glam::Quat;

fn position(x: f32, y: f32, z: f32) -> Position {
    Position::new(x.to_bits(), y.to_bits(), z.to_bits())
}

fn orientation_from_yaw_pitch_roll(yaw: f32, pitch: f32, roll: f32) -> Orientation {
    Orientation::from_yaw_pitch_roll(yaw.to_bits(), pitch.to_bits(), roll.to_bits())
}

fn position_x(p: &Position) -> f32 {
    f32::from_bits(p.x)
}

fn add_entity(ecs: &mut ECS, position: Position, name: Name) -> u32 {
    ecs.add_entity(position, Orientation::identity(), name)
}

#[test]
fn test_add_entity() {
    let mut ecs = ECS::new();

    let position = position(1.0, 2.0, 0.0);
    let name = Name("Test Entity".to_string());
    let id = add_entity(&mut ecs, position, name.clone());

    assert_eq!(ecs.entity_to_location.len(), 1);
    assert!(ecs.entity_to_location.contains_key(&id));

    let components = ecs.find_entity_components(id).unwrap();
    assert_eq!(components.0, &position);
    assert_eq!(components.1, &Orientation::identity());
    assert_eq!(components.2, &name);
}

#[test]
fn test_orientation_component_mut() {
    let mut ecs = ECS::new();
    let id = add_entity(&mut ecs, position(0.0, 0.0, 0.0), Name("Rotated".into()));
    let target = orientation_from_yaw_pitch_roll(0.3, -0.1, 0.0);
    assert!(ecs.set_orientation(id, target));
    let (_, stored, _) = ecs.find_entity_components(id).expect("entity missing");
    assert_eq!(stored, &target);
}

#[test]
fn test_add_render_component() {
    let mut ecs = ECS::new();

    let id = add_entity(&mut ecs, position(0.0, 0.0, 0.0), Name("Renderable".to_string()));

    let render_component = RenderComponent::new(
        [1.0f32.to_bits(), 0.0f32.to_bits(), 0.0f32.to_bits()],
        1.0f32.to_bits(),
    );
    ecs.add_render_component(id, render_component.clone());

    let (archetype_index, index_within_archetype) = ecs.entity_to_location[&id];
    let archetype = &ecs.archetypes[archetype_index];
    let column = archetype
        .renderables
        .as_ref()
        .expect("render column missing");
    assert_eq!(column[index_within_archetype], render_component);
}

#[test]
fn test_add_input_component() {
    let mut ecs = ECS::new();

    let id = add_entity(&mut ecs, position(0.0, 0.0, 0.0), Name("Controllable".to_string()));

    let mut input_component = InputComponent::new(0.2f32.to_bits());
    input_component.set_direction([0.0f32.to_bits(), 0.0f32.to_bits(), 1.0f32.to_bits()]);
    ecs.add_input_component(id, input_component.clone());

    let (archetype_index, index_within_archetype) = ecs.entity_to_location[&id];
    let archetype = &ecs.archetypes[archetype_index];
    let column = archetype.inputs.as_ref().expect("input column missing");
    assert_eq!(column[index_within_archetype], input_component);
}

#[test]
fn test_add_model_component() {
    let mut ecs = ECS::new();

    let id = add_entity(&mut ecs, position(0.0, 0.0, 0.0), Name("Model Holder".to_string()));

    let model_component = ModelComponent::new("assets/cube.obj".to_string());
    ecs.add_model_component(id, model_component.clone());

    let (archetype_index, index_within_archetype) = ecs.entity_to_location[&id];
    let archetype = &ecs.archetypes[archetype_index];
    let column = archetype.models.as_ref().expect("model column missing");
    assert_eq!(column[index_within_archetype], model_component);
}

#[test]
fn test_add_camera_component() {
    let mut ecs = ECS::new();

    let id = add_entity(&mut ecs, position(0.0, 0.0, 0.0), Name("Camera".to_string()));

    let camera_component = CameraComponent::new(0.0f32.to_bits(), 0.0f32.to_bits());
    ecs.add_camera_component(id, camera_component.clone());

    let (archetype_index, index_within_archetype) = ecs.entity_to_location[&id];
    let archetype = &ecs.archetypes[archetype_index];
    let column = archetype.cameras.as_ref().expect("camera column missing");
    assert_eq!(column[index_within_archetype], camera_component);
}

#[test]
fn test_add_terrain_component() {
    let mut ecs = ECS::new();

    let id = add_entity(&mut ecs, position(0.0, 0.0, 0.0), Name("Terrain Holder".to_string()));

    let terrain_component = TerrainComponent::new(
        12.0f32.to_bits(),
        0.3f32.to_bits(),
        [0.2f32.to_bits(), 0.4f32.to_bits(), 0.2f32.to_bits()],
        None,
        "assets/terrain_plane.obj".to_string(),
    );
    ecs.add_terrain_component(id, terrain_component.clone());

    let (archetype_index, index_within_archetype) = ecs.entity_to_location[&id];
    let archetype = &ecs.archetypes[archetype_index];
    let column = archetype.terrains.as_ref().expect("terrain column missing");
    assert_eq!(column[index_within_archetype], terrain_component);
}

#[test]
fn test_add_script_component() {
    let mut ecs = ECS::new();

    let id = add_entity(&mut ecs, position(0.0, 1.0, 0.0), Name("Scripted".to_string()));

    let script = ScriptComponent::new("test_behavior".to_string(), 1.0f32.to_bits());
    ecs.add_script_component(id, script.clone());

    let (archetype_index, index_within_archetype) = ecs.entity_to_location[&id];
    let archetype = &ecs.archetypes[archetype_index];
    let column = archetype.scripts.as_ref().expect("script column missing");
    assert_eq!(column[index_within_archetype], script);
}

#[test]
fn test_remove_render_component() {
    let mut ecs = ECS::new();

    let id = add_entity(&mut ecs, position(0.0, 0.0, 0.0), Name("Renderable".to_string()));

    ecs.add_render_component(
        id,
        RenderComponent::new(
            [1.0f32.to_bits(), 0.0f32.to_bits(), 0.0f32.to_bits()],
            1.0f32.to_bits(),
        ),
    );
    let (before_index, before_slot) = ecs.entity_to_location[&id];
    assert!(ecs.archetypes[before_index].renderables.is_some());
    assert!(
        ecs.archetypes[before_index].renderables.as_ref().unwrap()[before_slot].color
            == [1.0f32.to_bits(), 0.0f32.to_bits(), 0.0f32.to_bits()]
    );

    ecs.remove_render_component(id);
    let (after_index, after_slot) = ecs.entity_to_location[&id];
    assert_ne!(before_index, after_index);
    assert!(ecs.archetypes[after_index].renderables.is_none());
    assert_eq!(
        position_x(&ecs.archetypes[after_index].positions[after_slot]),
        0.0
    );
}

#[test]
fn hierarchy_system_updates_child_transform() {
    let mut ecs = ECS::new();
    let parent_id = add_entity(&mut ecs, position(0.0, 0.0, 0.0), Name("Parent".into()));
    let child_id = add_entity(&mut ecs, position(1.0, 0.0, 0.0), Name("Child".into()));

    let initial_child_orientation = orientation_from_yaw_pitch_roll(0.25, 0.1, 0.0);
    assert!(ecs.set_orientation(child_id, initial_child_orientation));

    let (parent_position, parent_orientation, _) = ecs
        .find_entity_components(parent_id)
        .expect("parent missing");
    let (child_position, child_orientation, _) =
        ecs.find_entity_components(child_id).expect("child missing");

    let hierarchy = HierarchyComponent::from_world_transforms(
        parent_id,
        *parent_position,
        *parent_orientation,
        *child_position,
        *child_orientation,
    );
    ecs.add_hierarchy_component(child_id, hierarchy);

    let yaw_quat = Quat::from_rotation_y(std::f32::consts::FRAC_PI_2);
    let target_parent_orientation = Orientation::from_quat(
        yaw_quat.x.to_bits(),
        yaw_quat.y.to_bits(),
        yaw_quat.z.to_bits(),
        yaw_quat.w.to_bits(),
    );
    assert!(ecs.set_orientation(parent_id, target_parent_orientation));
    assert!(ecs.set_position(parent_id, position(2.0, 1.0, -1.0)));

    let (updated_parent_position, updated_parent_orientation, _) = ecs
        .find_entity_components(parent_id)
        .expect("parent missing");
    let (expected_position, expected_orientation) =
        hierarchy.compose_with_parent(*updated_parent_position, *updated_parent_orientation);

    HierarchySystem::update(&mut ecs);

    let (child_position, child_orientation, _) =
        ecs.find_entity_components(child_id).expect("child missing");

    assert!(
        (f32::from_bits(child_position.x) - f32::from_bits(expected_position.x)).abs() < 1e-5
            && (f32::from_bits(child_position.y) - f32::from_bits(expected_position.y)).abs()
                < 1e-5
            && (f32::from_bits(child_position.z) - f32::from_bits(expected_position.z)).abs()
                < 1e-5
    );
    assert_eq!(child_orientation, &expected_orientation);
}

#[test]
fn test_remove_one_of_multiple_components_preserves_others() {
    let mut ecs = ECS::new();

    let id = add_entity(&mut ecs, position(0.0, 0.0, 0.0), Name("Complex".into()));

    ecs.add_render_component(
        id,
        RenderComponent::new(
            [0.5f32.to_bits(), 0.5f32.to_bits(), 0.5f32.to_bits()],
            1.0f32.to_bits(),
        ),
    );
    ecs.add_model_component(id, ModelComponent::new("assets/cube.obj".to_string()));
    let render_before = {
        let (index, slot) = ecs.entity_to_location[&id];
        ecs.archetypes[index].renderables.as_ref().unwrap()[slot].clone()
    };

    ecs.remove_model_component(id);

    let (after_index, after_slot) = ecs.entity_to_location[&id];
    assert!(ecs.archetypes[after_index].models.is_none());
    let render_column = ecs.archetypes[after_index]
        .renderables
        .as_ref()
        .expect("render column missing after removal");
    assert_eq!(render_column[after_slot], render_before);
}

#[test]
fn add_tag_using_ecs() {
    let mut ecs = ECS::new();
    let id = add_entity(&mut ecs, position(5.0, 10.0, 0.0), Name("Finder".to_string()));
    ecs.tag_manager.add_tag(id, "player");
    let entities = ecs.tag_manager.get_entities_with_tag("player").unwrap();
    assert!(entities.contains(&id));
}

#[test]
fn test_find_entity() {
    let mut ecs = ECS::new();

    let id = add_entity(&mut ecs, position(5.0, 10.0, 0.0), Name("Finder".to_string()));

    let archetype = ecs.find_entity(id);

    assert!(archetype.is_some());
}

#[test]
fn test_find_entity_components() {
    let mut ecs = ECS::new();

    let position = position(3.0, 4.0, 0.0);
    let name = Name("Component Checker".to_string());
    let id = add_entity(&mut ecs, position, name.clone());

    let components = ecs.find_entity_components(id);

    assert!(components.is_some());
    let (pos, orientation, n) = components.unwrap();
    assert_eq!(pos, &position);
    assert_eq!(orientation, &Orientation::identity());
    assert_eq!(n, &name);
}

#[test]
fn test_remove_entity() {
    let mut ecs = ECS::new();

    let id = add_entity(&mut ecs, position(7.0, 8.0, 0.0), Name("Removable".to_string()));

    let location = ecs.entity_to_location.get(&id).unwrap();
    let (archetype_index, _) = *location;
    let archetype = &ecs.archetypes[archetype_index];

    assert!(archetype.entity_ids.contains(&id));

    ecs.remove_entity(id);

    assert_eq!(ecs.entity_to_location.len(), 0);
    assert!(ecs.find_entity(id).is_none());
    assert!(ecs.find_entity_components(id).is_none());

    let archetype = &ecs.archetypes[archetype_index];
    assert!(!archetype.entity_ids.contains(&id));
    let len = archetype.entity_ids.len();
    assert_eq!(len, archetype.positions.len());
    assert_eq!(len, archetype.orientations.len());
    assert_eq!(len, archetype.names.len());
    let optional_lengths = [
        archetype.renderables.as_ref().map(|c| c.len()),
        archetype.inputs.as_ref().map(|c| c.len()),
        archetype.models.as_ref().map(|c| c.len()),
        archetype.cameras.as_ref().map(|c| c.len()),
        archetype.lights.as_ref().map(|c| c.len()),
        archetype.textures.as_ref().map(|c| c.len()),
        archetype.terrains.as_ref().map(|c| c.len()),
        archetype.scripts.as_ref().map(|c| c.len()),
    ];
    for column_len in optional_lengths {
        if let Some(column_len) = column_len {
            assert_eq!(len, column_len);
        }
    }
}

#[test]
fn test_reuse_entity_id() {
    let mut ecs = ECS::new();

    let id = add_entity(&mut ecs, position(2.0, 2.0, 0.0), Name("Reusable".to_string()));
    ecs.remove_entity(id);

    let new_id = add_entity(&mut ecs, position(9.0, 9.0, 0.0), Name("Reused".to_string()));

    assert_eq!(id, new_id);
    assert!(ecs.find_entity_components(new_id).is_some());
}

#[test]
fn light_components_iterates_lights() {
    let mut ecs = ECS::new();
    let entity = add_entity(&mut ecs, position(0.0, 0.0, 0.0), Name("Light".into()));
    let light = LightComponent::directional(
        [0.0f32.to_bits(), (-1.0f32).to_bits(), 0.0f32.to_bits()],
        [1.0f32.to_bits(), 1.0f32.to_bits(), 1.0f32.to_bits()],
        1.0f32.to_bits(),
    );
    ecs.add_light_component(entity, light);

    let (archetype_index, slot) = ecs.entity_to_location[&entity];
    let lights = ecs.archetypes[archetype_index]
        .lights
        .as_ref()
        .expect("light column missing");
    assert_eq!(lights.len(), 1);
    assert_eq!(f32::from_bits(lights[slot].intensity), 1.0);
    assert_eq!(
        position_x(&ecs.archetypes[archetype_index].positions[slot]),
        0.0
    );
}

#[test]
fn terrain_components_iterates_terrains() {
    let mut ecs = ECS::new();
    let entity = add_entity(&mut ecs, position(0.0, 0.0, 0.0), Name("Ground".into()));
    ecs.add_terrain_component(
        entity,
        TerrainComponent::new(
            20.0f32.to_bits(),
            0.4f32.to_bits(),
            [0.3f32.to_bits(), 0.55f32.to_bits(), 0.2f32.to_bits()],
            Some("assets/textures/blue.png".to_string()),
            "assets/terrain_plane.obj".to_string(),
        ),
    );

    let (archetype_index, slot) = ecs.entity_to_location[&entity];
    let terrains = ecs.archetypes[archetype_index]
        .terrains
        .as_ref()
        .expect("terrain column missing");
    assert_eq!(f32::from_bits(terrains[slot].size), 20.0);
    assert_eq!(terrains.len(), 1);
}
