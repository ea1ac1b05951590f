use ecosim::sprite::{grid_frame_count, SpawnError};
use ecosim::world::{Creature, Registry};

#[test]
fn spawned_entities_get_fresh_ids() {
    let mut reg = Registry::new();
    let algae = reg.spawn_static(Some(Creature::Algae), Some(20));
    let bat = reg
        .spawn_animated(Some(Creature::Carnivore), Some(20), 100, true, grid_frame_count(11, 1))
        .unwrap();
    let attack = reg.spawn_animated(None, None, 100, true, grid_frame_count(4, 2)).unwrap();
    let die = reg.spawn_animated(None, None, 100, true, grid_frame_count(5, 3)).unwrap();
    assert_eq!(algae, 0);
    assert_eq!(bat, 1);
    assert_eq!(attack, 2);
    assert_eq!(die, 3);
    assert_eq!(reg.entity_count(), 4);
    assert_eq!(reg.entity_at(0).creature(), Some(Creature::Algae));
    assert_eq!(reg.entity_at(0).health(), Some(20));
    assert_eq!(reg.entity_at(1).creature(), Some(Creature::Carnivore));
    assert_eq!(reg.entity_at(2).creature(), None);
}

#[test]
fn advance_all_steps_every_animated_entity() {
    let mut reg = Registry::new();
    let algae = reg.spawn_static(Some(Creature::Algae), Some(20));
    let bat = reg
        .spawn_animated(Some(Creature::Carnivore), Some(20), 100, true, 11)
        .unwrap();
    let once = reg.spawn_animated(None, None, 500, false, 8).unwrap();
    reg.advance_all(100);
    assert_eq!(reg.frame_index_of(algae), None);
    assert_eq!(reg.frame_index_of(bat), Some(1));
    assert_eq!(reg.frame_index_of(once), Some(0));
    reg.advance_all(250);
    assert_eq!(reg.frame_index_of(bat), Some(3));
    assert_eq!(reg.frame_index_of(once), Some(0));
    reg.advance_all(150);
    assert_eq!(reg.frame_index_of(bat), Some(5));
    assert_eq!(reg.frame_index_of(once), Some(1));
    reg.advance_all(5000);
    assert_eq!(reg.frame_index_of(once), Some(1));
}

#[test]
fn unknown_id_has_no_frame() {
    let mut reg = Registry::new();
    assert_eq!(reg.frame_index_of(0), None);
    let id = reg.spawn_animated(None, None, 100, true, 4).unwrap();
    assert_eq!(reg.frame_index_of(id + 1), None);
}

#[test]
fn invalid_spawn_leaves_registry_unchanged() {
    let mut reg = Registry::new();
    assert_eq!(
        reg.spawn_animated(Some(Creature::Herbivore), Some(20), 100, true, 0).unwrap_err(),
        SpawnError::EmptySheet,
    );
    assert_eq!(
        reg.spawn_animated(Some(Creature::Herbivore), Some(20), 0, true, 5).unwrap_err(),
        SpawnError::ZeroInterval,
    );
    assert_eq!(reg.entity_count(), 0);
    let id = reg.spawn_static(None, None);
    assert_eq!(id, 0);
}

#[test]
fn entity_reports_its_components() {
    let mut reg = Registry::new();
    let id = reg
        .spawn_animated(Some(Creature::Carnivore), Some(20), 100, true, 11)
        .unwrap();
    let ent = reg.entity_at(0);
    assert_eq!(ent.id(), id);
    assert_eq!(ent.health(), Some(20));
    assert_eq!(ent.frame_index(), Some(0));
}
