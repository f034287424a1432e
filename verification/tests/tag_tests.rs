use rust_game::ecs::tag_manager::TagManager;

#[test]
fn test_add_tag() {
    let mut tag_manager = TagManager::new();

    tag_manager.add_tag(1, "Player");

    let entities = tag_manager.get_entities_with_tag("Player").unwrap();
    assert!(entities.contains(&1));
}

#[test]
fn test_remove_tag() {
    let mut tag_manager = TagManager::new();

    tag_manager.add_tag(1, "Enemy");
    tag_manager.remove_tag(1, "Enemy");

    assert!(tag_manager.get_entities_with_tag("Enemy").is_none());
}

#[test]
fn test_get_entities_with_tag() {
    let mut tag_manager = TagManager::new();

    tag_manager.add_tag(1, "NPC");
    tag_manager.add_tag(2, "NPC");
    tag_manager.add_tag(3, "Enemy");

    let entities = tag_manager.get_entities_with_tag("NPC").unwrap();
    assert!(entities.contains(&1));
    assert!(entities.contains(&2));
    assert_eq!(entities.len(), 2);
}

#[test]
fn test_multiple_tags() {
    let mut tag_manager = TagManager::new();

    tag_manager.add_tag(1, "Player");
    tag_manager.add_tag(1, "NPC");

    tag_manager.add_tag(2, "NPC");

    let player_entities = tag_manager.get_entities_with_tag("Player").unwrap();
    assert!(player_entities.contains(&1));
    assert_eq!(player_entities.len(), 1);

    let npc_entities = tag_manager.get_entities_with_tag("NPC").unwrap();
    assert!(npc_entities.contains(&1));
    assert!(npc_entities.contains(&2));
    assert_eq!(npc_entities.len(), 2);

    tag_manager.remove_tag(1, "Player");

    assert!(tag_manager.get_entities_with_tag("Player").is_none());

    let npc_entities = tag_manager.get_entities_with_tag("NPC").unwrap();
    assert!(npc_entities.contains(&1));
    assert!(npc_entities.contains(&2));
}

#[test]
fn test_remove_entity_from_tag_group() {
    let mut tag_manager = TagManager::new();

    tag_manager.add_tag(1, "Collectible");
    tag_manager.add_tag(2, "Collectible");

    tag_manager.remove_tag(1, "Collectible");

    let entities = tag_manager.get_entities_with_tag("Collectible").unwrap();
    assert!(entities.contains(&2));
    assert!(!entities.contains(&1));
}

#[test]
fn test_remove_last_entity_from_tag() {
    let mut tag_manager = TagManager::new();

    tag_manager.add_tag(1, "QuestItem");
    tag_manager.remove_tag(1, "QuestItem");

    assert!(tag_manager.get_entities_with_tag("QuestItem").is_none());
}

#[test]
fn test_handle_non_existent_tag() {
    let mut tag_manager = TagManager::new();

    tag_manager.remove_tag(1, "NonExistent");

    assert!(tag_manager.get_entities_with_tag("NonExistent").is_none());
}

#[test]
fn tags_for_entity_reports_all_memberships() {
    let mut tag_manager = TagManager::new();
    tag_manager.add_tag(7, "tree");
    tag_manager.add_tag(7, "terrain");
    tag_manager.add_tag(8, "tree");

    let mut tags = tag_manager.tags_for_entity(7);
    tags.sort();
    assert_eq!(tags, vec!["terrain".to_string(), "tree".to_string()]);
    assert!(tag_manager.tags_for_entity(9).is_empty());
}
