use vstd::prelude::*;

use crate::net::protocol::objects::{PlayerId, Team};
use vstd::string::StringExecFns;

verus! {

broadcast use vstd::string::axiom_spec_iter;

/// Identity of a player: id, display name and team.
#[derive(Debug, Clone, PartialEq)]
pub struct PlayerInfo {
    pub id: PlayerId,
    pub nickname: String,
    pub team: Team,
}

impl PlayerInfo {
    pub fn new(id: PlayerId, nickname: String, team: Team) -> (info: Self)
        ensures
            info.id == id,
            info.nickname@ == nickname@,
            info.team == team,
    {
        Self { id, nickname, team }
    }
}

/// Characters allowed in a username: ASCII letters, ASCII digits, underscore.
pub open spec fn is_username_char(c: char) -> bool {
    ||| ('a' <= c && c <= 'z')
    ||| ('A' <= c && c <= 'Z')
    ||| ('0' <= c && c <= '9')
    ||| c == '_'
}

/// The username's length in bytes (of its UTF-8 encoding) is between 3 and 16.
pub open spec fn username_length_ok(username: &str) -> bool {
    3 <= username.len() <= 16
}

/// Every character of the username is allowed.
pub open spec fn username_chars_ok(username: &str) -> bool {
    forall|i: int| 0 <= i < username@.len() ==> #[trigger] is_username_char(username@[i])
}

fn is_username_char_exec(c: char) -> (b: bool)
    ensures
        b == is_username_char(c),
{
    ('a' <= c && c <= 'z') || ('A' <= c && c <= 'Z') || ('0' <= c && c <= '9') || c == '_'
}

/// Checks a username: 3 to 16 bytes long, made of ASCII letters, digits and
/// underscores only. The length is checked first, so a name failing both
/// checks gets the length message.
pub fn is_valid_username(username: &str) -> (r: Result<(), String>)
    ensures
        r is Ok <==> username_length_ok(username) && username_chars_ok(username),
        r matches Err(msg) ==> {
            if !username_length_ok(username) {
                msg@ == "Username must be between 3 and 16 characters long."@
            } else {
                msg@ == "Username can only consist of alphanumerics and underscores."@
            }
        },
{
    let len = username.len();
    if !(3 <= len && len <= 16) {
        return Err(String::from_str("Username must be between 3 and 16 characters long."));
    }
    let mut all_ok = true;
    for c in it: username.chars()
        invariant
            all_ok <==> (forall|j: int| 0 <= j < it.index() ==> #[trigger] is_username_char(it.seq()[j])),
            it.seq() == username@,
    {
        if !is_username_char_exec(c) {
            all_ok = false;
        }
    }
    assert(all_ok <==> username_chars_ok(username));
    if !all_ok {
        return Err(String::from_str("Username can only consist of alphanumerics and underscores."));
    }
    Ok(())
}

} // verus!
