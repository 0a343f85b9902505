use neuroblasters::net::protocol::objects::{MapDefinition, MapName, Point, Team};
use neuroblasters::training::{training_roster, TrainingMode};

#[test]
fn training_test_init_game_spectator() {
    let mode = TrainingMode::Spectator;
    let roster = training_roster(&MapDefinition::load(), mode);

    assert_eq!(roster.mode, TrainingMode::Spectator);
    assert!(roster.human_id.is_none());
    // 4 vs 4
    assert_eq!(roster.slots.len(), 8);
}

#[test]
fn training_test_init_game_human_vs_ai() {
    let mode = TrainingMode::HumanVsAi;
    let roster = training_roster(&MapDefinition::load(), mode);

    assert_eq!(roster.mode, TrainingMode::HumanVsAi);
    assert_eq!(roster.human_id, Some(0));
    assert_eq!(roster.slots.len(), 5);
}

#[test]
fn training_menu_test_init_game_spectator() {
    let mode = TrainingMode::Spectator;
    let roster = training_roster(&MapDefinition::load(), mode);

    assert_eq!(roster.mode, TrainingMode::Spectator);
    assert!(roster.human_id.is_none());
    // 4 vs 4
    assert_eq!(roster.slots.len(), 8);
}

#[test]
fn training_menu_test_init_game_human_vs_ai() {
    let mode = TrainingMode::HumanVsAi;
    let roster = training_roster(&MapDefinition::load(), mode);

    assert_eq!(roster.mode, TrainingMode::HumanVsAi);
    assert_eq!(roster.human_id, Some(0));
    assert_eq!(roster.slots.len(), 5);
}

#[test]
fn spectator_roster_names_ids_and_teams() {
    let map = MapDefinition::load();
    let roster = training_roster(&map, TrainingMode::Spectator);
    let names: Vec<&str> = roster.slots.iter().map(|s| s.info.nickname.as_str()).collect();
    assert_eq!(
        names,
        vec!["Blue 0", "Blue 1", "Blue 2", "Blue 3", "Red 0", "Red 1", "Red 2", "Red 3"]
    );
    for (k, slot) in roster.slots.iter().enumerate() {
        assert_eq!(slot.info.id as usize, k);
        let expected_team = if k < 4 { Team::Blue } else { Team::Red };
        assert_eq!(slot.info.team, expected_team);
    }
    // Blue 0 takes spawn point 4, Red 0 takes spawn point 0.
    assert_eq!(roster.slots[0].position, map.spawn_points[4].1);
    assert_eq!(roster.slots[4].position, Point { x: 460, y: 822 });
}

#[test]
fn human_vs_ai_roster_puts_player_on_blue() {
    let map = MapDefinition::load_name(MapName::Tiga);
    let roster = training_roster(&map, TrainingMode::HumanVsAi);
    assert_eq!(roster.slots[0].info.nickname, "Player");
    assert_eq!(roster.slots[0].info.id, 0);
    assert_eq!(roster.slots[0].info.team, Team::Blue);
    assert_eq!(roster.slots[0].position, Point { x: 503, y: 537 });
    for k in 1..5 {
        assert_eq!(roster.slots[k].info.nickname, format!("Bot {}", k - 1));
        assert_eq!(roster.slots[k].info.id as usize, k);
        assert_eq!(roster.slots[k].info.team, Team::Red);
    }
}

#[test]
fn roster_skips_missing_spawn_points() {
    let map = MapDefinition {
        width: 100,
        height: 100,
        walls: vec![],
        spawn_points: vec![(Team::Red, Point { x: 1, y: 1 }), (Team::Red, Point { x: 2, y: 2 })],
    };
    let spectators = training_roster(&map, TrainingMode::Spectator);
    let names: Vec<&str> = spectators.slots.iter().map(|s| s.info.nickname.as_str()).collect();
    assert_eq!(names, vec!["Red 0", "Red 1"]);
    assert_eq!(spectators.slots[0].info.id, 4);

    let solo = training_roster(&map, TrainingMode::HumanVsAi);
    assert_eq!(solo.human_id, None);
    let names: Vec<&str> = solo.slots.iter().map(|s| s.info.nickname.as_str()).collect();
    assert_eq!(names, vec!["Bot 0", "Bot 1"]);
    assert_eq!(solo.slots[1].info.id, 2);
}
