use neuroblasters::game::feed_text::{apply_update, event_line, state_line};
use neuroblasters::game::player::PlayerInfo;
use neuroblasters::net::protocol::messages::GameEvent;
use neuroblasters::net::protocol::objects::{GameState, KillEvent, Team};

#[test]
fn state_lines_for_each_phase() {
    assert_eq!(state_line(GameState::Waiting, 1), "Waiting for game start");
    assert_eq!(state_line(GameState::Countdown(3), 12), "Round 12 starting in 3...");
    assert_eq!(state_line(GameState::Battle(105), 2), "Time: 105");
    assert_eq!(state_line(GameState::Battle(0), 2), "Time: 0");
    assert_eq!(
        state_line(GameState::Results { winner: Team::Red, blue_score: 2, red_score: 10 }, 5),
        "Team Red won! (Blue: 2, Red: 10)"
    );
}

#[test]
fn event_lines_use_the_right_round() {
    assert_eq!(event_line(3, 4, &GameEvent::RoundEnded(Team::Blue)), "Round 3 ended. Winner is Blue!");
    assert_eq!(event_line(3, 4, &GameEvent::RoundStarted), "Round 4 has started.");
    assert_eq!(event_line(1, 1, &GameEvent::PlayerJoined("ann".to_string())), "ann joined the game.");
    assert_eq!(event_line(1, 1, &GameEvent::PlayerLeft("bob".to_string())), "bob left the game.");
    let kill = KillEvent {
        killer_info: PlayerInfo::new(1, "ann".to_string(), Team::Blue),
        victim_info: PlayerInfo::new(2, "bob".to_string(), Team::Red),
    };
    assert_eq!(event_line(1, 1, &GameEvent::Kill(kill)), "ann (Blue) killed bob (Red)");
}

#[test]
fn update_texts_and_host_flag() {
    let events = vec![GameEvent::RoundEnded(Team::Red), GameEvent::RoundStarted];
    let r = apply_update(1, 2, GameState::Countdown(5), 7, 7, &events);
    assert!(r.is_host);
    assert_eq!(r.main_text, "Round 2 starting in 5...");
    assert_eq!(r.side_lines, vec!["Round 1 ended. Winner is Red!", "Round 2 has started."]);
    let r = apply_update(2, 2, GameState::Battle(60), 7, 8, &vec![]);
    assert!(!r.is_host);
    assert!(r.side_lines.is_empty());
    assert_eq!(r.main_text, "Time: 60");
}
