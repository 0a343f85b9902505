use neuroblasters::game::player::{is_valid_username, PlayerInfo};
use neuroblasters::net::protocol::objects::Team;

#[test]
fn valid_username_accepts_alphanumeric_and_underscore() {
    assert!(is_valid_username("Player_123").is_ok());
    assert!(is_valid_username("abc").is_ok());
    assert!(is_valid_username("A_B_C_1_2_3_4_5").is_ok());
}

#[test]
fn invalid_username_too_short() {
    assert!(is_valid_username("ab").is_err());
    assert!(is_valid_username("").is_err());
}

#[test]
fn invalid_username_too_long() {
    assert!(is_valid_username("12345678901234567").is_err()); // 17 chars
}

#[test]
fn invalid_username_special_chars() {
    assert!(is_valid_username("user@name").is_err());
    assert!(is_valid_username("user name").is_err());
    assert!(is_valid_username("user-name").is_err());
}

#[test]
fn username_error_messages_name_the_failed_check() {
    assert_eq!(
        is_valid_username("ab").unwrap_err(),
        "Username must be between 3 and 16 characters long."
    );
    assert_eq!(
        is_valid_username("user name").unwrap_err(),
        "Username can only consist of alphanumerics and underscores."
    );
    // Failing both checks reports the length first.
    assert_eq!(
        is_valid_username("a b").unwrap_err(),
        "Username can only consist of alphanumerics and underscores."
    );
    assert_eq!(
        is_valid_username("a-").unwrap_err(),
        "Username must be between 3 and 16 characters long."
    );
}

#[test]
fn username_length_counts_bytes() {
    // Sixteen bytes exactly is accepted.
    assert!(is_valid_username("abcdefghijklmnop").is_ok());
    // Three characters of two bytes each: long enough, but not ASCII.
    assert_eq!(
        is_valid_username("ééé").unwrap_err(),
        "Username can only consist of alphanumerics and underscores."
    );
    // Nine two-byte characters make 18 bytes: too long.
    assert_eq!(
        is_valid_username("ééééééééé").unwrap_err(),
        "Username must be between 3 and 16 characters long."
    );
}

#[test]
fn player_info_new_keeps_fields() {
    let info = PlayerInfo::new(7, "Tank".to_string(), Team::Red);
    assert_eq!(info.id, 7);
    assert_eq!(info.nickname, "Tank");
    assert_eq!(info.team, Team::Red);
}
