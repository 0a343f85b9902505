use neuroblasters::fps::FPSDisplay;
use neuroblasters::lobby::GameCreation;
use neuroblasters::net::protocol::messages::ClientMessage;
use neuroblasters::net::protocol::objects::MapName;
use neuroblasters::protocol::{
    api_version, ApiVersion, ConnectError, CountdownError, GameCode, GameCreateError,
    GameJoinError, GameLeaveError, ServerError, SessionId,
};
use neuroblasters::text_input::accepts_char;

#[test]
fn fps_average_over_ring_buffer() {
    let mut fps = FPSDisplay::new(3);
    assert_eq!(fps.average(), 0);
    fps.record(30);
    fps.record(60);
    assert_eq!(fps.average(), 30);
    fps.record(90);
    assert_eq!(fps.average(), 60);
    // The fourth measure replaces the first.
    fps.record(0);
    assert_eq!(fps.average(), 50);
    fps.record(-7);
    assert_eq!(fps.average(), 27);
}

#[test]
fn fps_average_rounds_toward_zero() {
    let mut fps = FPSDisplay::new(2);
    fps.record(-3);
    assert_eq!(fps.average(), -1);
    fps.record(0);
    assert_eq!(fps.average(), -1);
}

#[test]
fn game_creation_scrolls_wrap() {
    let mut form = GameCreation::new();
    assert_eq!(form.num_rounds(), 5);
    assert_eq!(form.map(), MapName::Basic);
    form.scroll_rounds_left();
    assert_eq!(form.num_rounds(), 1);
    form.scroll_rounds_left();
    assert_eq!(form.num_rounds(), 20);
    form.scroll_rounds_right();
    assert_eq!(form.num_rounds(), 1);
    form.scroll_map_left();
    assert_eq!(form.map(), MapName::Tiga);
    form.scroll_map_right();
    form.scroll_map_right();
    assert_eq!(form.map(), MapName::Loss);
    let msg: ClientMessage<()> = form.create_request();
    assert_eq!(msg, ClientMessage::CreateGame { map: MapName::Loss, rounds: 1 });
}

#[test]
fn text_field_accepts_printable_ascii_until_full() {
    assert!(accepts_char(0, 3, 'a'));
    assert!(accepts_char(2, 3, ' '));
    assert!(accepts_char(2, 3, '~'));
    assert!(!accepts_char(3, 3, 'a'));
    assert!(!accepts_char(0, 3, '\n'));
    assert!(!accepts_char(0, 3, 'é'));
    assert!(!accepts_char(0, 0, 'a'));
}

#[test]
fn server_errors_convert_from_request_errors() {
    assert_eq!(api_version(), ApiVersion(2));
    let e: ServerError = ConnectError::HandshakeRequired.into();
    assert_eq!(e, ServerError::Connect(ConnectError::HandshakeRequired));
    let e: ServerError = ConnectError::DuplicateHandshake { session_id: SessionId(4) }.into();
    assert_eq!(e, ServerError::Connect(ConnectError::DuplicateHandshake { session_id: SessionId(4) }));
    let code = GameCode("AB12".to_string());
    let e: ServerError = GameCreateError::AlreadyInGame { game_code: code.clone() }.into();
    assert_eq!(e, ServerError::GameCreate(GameCreateError::AlreadyInGame { game_code: code.clone() }));
    let e: ServerError = GameJoinError::NotFound { game_code: code.clone() }.into();
    assert_eq!(e, ServerError::GameJoin(GameJoinError::NotFound { game_code: code }));
    let e: ServerError = GameLeaveError::GameInProgress.into();
    assert_eq!(e, ServerError::GameLeave(GameLeaveError::GameInProgress));
    let e: ServerError = CountdownError::NotEnoughPlayers.into();
    assert_eq!(e, ServerError::GameCountdown(CountdownError::NotEnoughPlayers));
}

#[test]
fn fps_sum_fits_check() {
    let mut fps = neuroblasters::fps::FPSDisplay::new(2);
    assert!(fps.sum_fits_i32());
    fps.record(i32::MAX);
    assert!(fps.sum_fits_i32());
    fps.record(1);
    assert!(!fps.sum_fits_i32());
}
