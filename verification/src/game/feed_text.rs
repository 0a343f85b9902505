//! The texts a client shows while a game runs: one side-feed line per game
//! event and the main banner for the game's phase.
use vstd::prelude::*;

use crate::net::protocol::messages::GameEvent;
use crate::net::protocol::objects::{ClientId, GameState, KillEvent, Team};
use vstd::string::StringExecFns;

verus! {

/// The decimal digit for a number below ten.
pub open spec fn digit(n: int) -> char {
    (48 + n) as char
}

/// The decimal writing of `n`, without leading zeros.
pub open spec fn decimal(n: nat) -> Seq<char>
    decreases n,
{
    if n < 10 {
        seq![digit(n as int)]
    } else {
        decimal(n / 10) + seq![digit((n % 10) as int)]
    }
}

/// A team's name.
pub open spec fn team_text(t: Team) -> Seq<char> {
    match t {
        Team::Blue => "Blue"@,
        Team::Red => "Red"@,
    }
}

/// The side-feed line for a game event; a round that ends is the round before
/// the update (`old_round`), a round that starts the one after (`new_round`).
pub open spec fn event_text(old_round: u8, new_round: u8, e: GameEvent) -> Seq<char> {
    match e {
        GameEvent::RoundEnded(w) => "Round "@ + decimal(old_round as nat) + " ended. Winner is "@
            + team_text(w) + "!"@,
        GameEvent::RoundStarted => "Round "@ + decimal(new_round as nat) + " has started."@,
        GameEvent::Kill(k) => k.killer_info.nickname@ + " ("@ + team_text(k.killer_info.team)
            + ") killed "@ + k.victim_info.nickname@ + " ("@ + team_text(k.victim_info.team) + ")"@,
        GameEvent::PlayerJoined(p) => p@ + " joined the game."@,
        GameEvent::PlayerLeft(p) => p@ + " left the game."@,
    }
}

/// The main banner for the game's phase in round `round`.
pub open spec fn state_text(state: GameState, round: u8) -> Seq<char> {
    match state {
        GameState::Waiting => "Waiting for game start"@,
        GameState::Countdown(c) => "Round "@ + decimal(round as nat) + " starting in "@ + decimal(
            c as nat,
        ) + "..."@,
        GameState::Battle(s) => "Time: "@ + decimal(s as nat),
        GameState::Results { winner, blue_score, red_score } => "Team "@ + team_text(winner)
            + " won! (Blue: "@ + decimal(blue_score as nat) + ", Red: "@ + decimal(
            red_score as nat,
        ) + ")"@,
    }
}

pub(crate) fn digit_str(d: u64) -> (s: &'static str)
    requires
        d < 10,
    ensures
        s@ == seq![digit(d as int)],
{
    if d == 0 {
        proof {
            reveal_strlit("0");
        }
        "0"
    } else if d == 1 {
        proof {
            reveal_strlit("1");
        }
        "1"
    } else if d == 2 {
        proof {
            reveal_strlit("2");
        }
        "2"
    } else if d == 3 {
        proof {
            reveal_strlit("3");
        }
        "3"
    } else if d == 4 {
        proof {
            reveal_strlit("4");
        }
        "4"
    } else if d == 5 {
        proof {
            reveal_strlit("5");
        }
        "5"
    } else if d == 6 {
        proof {
            reveal_strlit("6");
        }
        "6"
    } else if d == 7 {
        proof {
            reveal_strlit("7");
        }
        "7"
    } else if d == 8 {
        proof {
            reveal_strlit("8");
        }
        "8"
    } else {
        proof {
            reveal_strlit("9");
        }
        "9"
    }
}

/// Appends the decimal writing of `n`.
fn append_decimal(s: &mut String, n: u64)
    ensures
        final(s)@ == old(s)@ + decimal(n as nat),
    decreases n,
{
    if n >= 10 {
        append_decimal(s, n / 10);
    }
    s.append(digit_str(n % 10));
}

fn team_str(t: Team) -> (s: &'static str)
    ensures
        s@ == team_text(t),
{
    match t {
        Team::Blue => "Blue",
        Team::Red => "Red",
    }
}

/// The side-feed line for one game event.
pub fn event_line(old_round: u8, new_round: u8, event: &GameEvent) -> (s: String)
    ensures
        s@ == event_text(old_round, new_round, *event),
{
    match event {
        GameEvent::RoundEnded(w) => {
            let mut s = String::from_str("Round ");
            append_decimal(&mut s, old_round as u64);
            s.append(" ended. Winner is ");
            s.append(team_str(*w));
            s.append("!");
            s
        },
        GameEvent::RoundStarted => {
            let mut s = String::from_str("Round ");
            append_decimal(&mut s, new_round as u64);
            s.append(" has started.");
            s
        },
        GameEvent::Kill(k) => {
            let mut s = String::from_str(k.killer_info.nickname.as_str());
            s.append(" (");
            s.append(team_str(k.killer_info.team));
            s.append(") killed ");
            s.append(k.victim_info.nickname.as_str());
            s.append(" (");
            s.append(team_str(k.victim_info.team));
            s.append(")");
            s
        },
        GameEvent::PlayerJoined(p) => {
            let mut s = String::from_str(p.as_str());
            s.append(" joined the game.");
            s
        },
        GameEvent::PlayerLeft(p) => {
            let mut s = String::from_str(p.as_str());
            s.append(" left the game.");
            s
        },
    }
}

/// The main banner for the game's phase.
pub fn state_line(state: GameState, round: u8) -> (s: String)
    ensures
        s@ == state_text(state, round),
{
    match state {
        GameState::Waiting => String::from_str("Waiting for game start"),
        GameState::Countdown(c) => {
            let mut s = String::from_str("Round ");
            append_decimal(&mut s, round as u64);
            s.append(" starting in ");
            append_decimal(&mut s, c);
            s.append("...");
            s
        },
        GameState::Battle(t) => {
            let mut s = String::from_str("Time: ");
            append_decimal(&mut s, t);
            s
        },
        GameState::Results { winner, blue_score, red_score } => {
            let mut s = String::from_str("Team ");
            s.append(team_str(winner));
            s.append(" won! (Blue: ");
            append_decimal(&mut s, blue_score as u64);
            s.append(", Red: ");
            append_decimal(&mut s, red_score as u64);
            s.append(")");
            s
        },
    }
}

/// What a game update changes in the client's game screen.
pub struct FeedUpdate {
    /// The client hosts the game.
    pub is_host: bool,
    /// The new main banner.
    pub main_text: String,
    /// One new side-feed line per event, in order.
    pub side_lines: Vec<String>,
}

/// The screen texts for a game update: the client is host when it is the
/// game master, the banner follows the new state and round, and each event
/// gives one side-feed line.
pub fn apply_update(
    old_round: u8,
    new_round: u8,
    state: GameState,
    game_master: ClientId,
    me: ClientId,
    events: &Vec<GameEvent>,
) -> (r: FeedUpdate)
    ensures
        r.is_host == (game_master == me),
        r.main_text@ == state_text(state, new_round),
        r.side_lines@.len() == events@.len(),
        forall|i: int|
            0 <= i < events@.len() ==> (#[trigger] r.side_lines@[i])@ == event_text(
                old_round,
                new_round,
                events@[i],
            ),
{
    let mut side_lines: Vec<String> = Vec::new();
    let mut i: usize = 0;
    while i < events.len()
        invariant
            i <= events@.len(),
            side_lines@.len() == i,
            forall|j: int|
                0 <= j < i ==> (#[trigger] side_lines@[j])@ == event_text(
                    old_round,
                    new_round,
                    events@[j],
                ),
        decreases events@.len() - i,
    {
        side_lines.push(event_line(old_round, new_round, &events[i]));
        i += 1;
    }
    FeedUpdate { is_host: game_master == me, main_text: state_line(state, new_round), side_lines }
}

/// A decimal digit character.
pub open spec fn is_digit(c: char) -> bool {
    '0' <= c <= '9'
}

/// The number a string of decimal digits stands for.
pub open spec fn digits_value(s: Seq<char>) -> int
    decreases s.len(),
{
    if s.len() == 0 {
        0
    } else {
        digits_value(s.drop_last()) * 10 + (s.last() as int - 48)
    }
}

proof fn lemma_digit(d: int)
    requires
        0 <= d < 10,
    ensures
        digit(d) as int == 48 + d,
        is_digit(digit(d)),
        d != 0 ==> digit(d) != '0',
{
}

/// Writing a number in decimal gives a non-empty string of digits, without a
/// leading zero, that stands for that number.
pub proof fn lemma_decimal_value(n: nat)
    ensures
        decimal(n).len() >= 1,
        forall|i: int| 0 <= i < decimal(n).len() ==> is_digit(#[trigger] decimal(n)[i]),
        digits_value(decimal(n)) == n,
        n >= 10 ==> decimal(n)[0] != '0',
    decreases n,
{
    if n < 10 {
        lemma_digit(n as int);
        assert(decimal(n) == seq![digit(n as int)]);
        assert(decimal(n)[0] == digit(n as int));
        assert(decimal(n).drop_last() =~= Seq::<char>::empty());
        assert(digits_value(Seq::<char>::empty()) == 0);
        assert(digits_value(decimal(n)) == digits_value(decimal(n).drop_last()) * 10 + (
        decimal(n).last() as int - 48));
    } else {
        let q = n / 10;
        let d = (n % 10) as int;
        lemma_decimal_value(q);
        let s = decimal(n);
        lemma_digit(d);
        assert(s.drop_last() =~= decimal(q));
        assert(s.last() == digit(d));
        assert(s[0] == decimal(q)[0]);
        assert forall|i: int| 0 <= i < s.len() implies is_digit(#[trigger] s[i]) by {
            if i < s.len() - 1 {
                assert(s[i] == decimal(q)[i]);
            } else {
                assert(s[i] == digit(d));
            }
        }
        assert(digits_value(s) == digits_value(decimal(q)) * 10 + (digit(d) as int - 48));
        assert(n == q * 10 + d);
        if q < 10 {
            assert(decimal(q) == seq![digit(q as int)]);
            lemma_digit(q as int);
        }
    }
}

proof fn lemma_concat_parts(a: Seq<char>, b: Seq<char>, c: Seq<char>, d: Seq<char>, e: Seq<char>)
    ensures
        ({
            let t = a + b + c + d + e;
            let i1 = a.len() as int;
            let i2 = i1 + b.len() as int;
            let i3 = i2 + c.len() as int;
            let i4 = i3 + d.len() as int;
            &&& t.subrange(0, i1) == a
            &&& t.subrange(i1, i2) == b
            &&& t.subrange(i2, i3) == c
            &&& t.subrange(i3, i4) == d
            &&& t.subrange(i4, t.len() as int) == e
        }),
{
    let t = a + b + c + d + e;
    let i1 = a.len() as int;
    let i2 = i1 + b.len() as int;
    let i3 = i2 + c.len() as int;
    let i4 = i3 + d.len() as int;
    assert(t.subrange(0, i1) =~= a);
    assert(t.subrange(i1, i2) =~= b);
    assert(t.subrange(i2, i3) =~= c);
    assert(t.subrange(i3, i4) =~= d);
    assert(t.subrange(i4, t.len() as int) =~= e);
}

/// The results banner names the winner and then shows Blue's score after
/// "Blue: " and Red's score after ", Red: ", whichever team won: the text
/// after the winner's name is the same for both winners.
pub proof fn lemma_results_banner(w: Team, b: u8, r: u8, round: u8)
    ensures
        ({
            let t = state_text(GameState::Results { winner: w, blue_score: b, red_score: r }, round);
            let head = "Team "@ + team_text(w) + " won! (Blue: "@;
            let hl = head.len() as int;
            let bl = decimal(b as nat).len() as int;
            let rl = decimal(r as nat).len() as int;
            let mid = hl + bl + (", Red: "@.len() as int);
            &&& t.subrange(0, hl) == head
            &&& digits_value(t.subrange(hl, hl + bl)) == b
            &&& t.subrange(hl + bl, mid) == ", Red: "@
            &&& digits_value(t.subrange(mid, mid + rl)) == r
            &&& t.subrange(mid + rl, t.len() as int) == ")"@
            &&& forall|w2: Team|
                #![trigger team_text(w2)]
                state_text(GameState::Results { winner: w2, blue_score: b, red_score: r }, round).skip(
                    5 + team_text(w2).len() as int,
                ) == t.skip(5 + team_text(w).len() as int)
        }),
{
    lemma_decimal_value(b as nat);
    lemma_decimal_value(r as nat);
    reveal_strlit("Team ");
    let t = state_text(GameState::Results { winner: w, blue_score: b, red_score: r }, round);
    let head = "Team "@ + team_text(w) + " won! (Blue: "@;
    let db = decimal(b as nat);
    let dr = decimal(r as nat);
    let sep = ", Red: "@;
    let close = ")"@;
    assert(t == head + db + sep + dr + close);
    lemma_concat_parts(head, db, sep, dr, close);
    assert forall|w2: Team| #![trigger team_text(w2)] state_text(
        GameState::Results { winner: w2, blue_score: b, red_score: r },
        round,
    ).skip(5 + team_text(w2).len() as int) == t.skip(5 + team_text(w).len() as int) by {
        let t2 = state_text(GameState::Results { winner: w2, blue_score: b, red_score: r }, round);
        let rest = " won! (Blue: "@ + db + sep + dr + close;
        assert(t2 =~= "Team "@ + team_text(w2) + rest);
        assert(t =~= "Team "@ + team_text(w) + rest);
        assert(t2.skip(5 + team_text(w2).len() as int) =~= rest);
        assert(t.skip(5 + team_text(w).len() as int) =~= rest);
    }
}
proof fn lemma_concat_parts3(a: Seq<char>, b: Seq<char>, c: Seq<char>)
    ensures
        (a + b + c).subrange(0, a.len() as int) == a,
        (a + b + c).subrange(a.len() as int, a.len() as int + b.len() as int) == b,
        (a + b + c).subrange(a.len() as int + b.len() as int, (a + b + c).len() as int) == c,
{
    assert((a + b + c).subrange(0, a.len() as int) =~= a);
    assert((a + b + c).subrange(a.len() as int, a.len() as int + b.len() as int) =~= b);
    assert((a + b + c).subrange(a.len() as int + b.len() as int, (a + b + c).len() as int) =~= c);
}

/// The round texts carry the right round: a round that ends is the one
/// before the update, a round that starts the one after, and a countdown or
/// a battle shows its round and seconds. A kill names the killer first and
/// the victim last; a player joining or leaving is named first.
pub proof fn lemma_event_and_phase_texts(
    old_round: u8,
    new_round: u8,
    w: Team,
    k: KillEvent,
    p: String,
    count: u64,
)
    ensures
        ({
            let t = event_text(old_round, new_round, GameEvent::RoundEnded(w));
            let n = decimal(old_round as nat).len() as int;
            &&& t.subrange(0, 6) == "Round "@
            &&& digits_value(t.subrange(6, 6 + n)) == old_round
            &&& t.subrange(6 + n, t.len() as int) == " ended. Winner is "@ + team_text(w) + "!"@
        }),
        ({
            let t = event_text(old_round, new_round, GameEvent::RoundStarted);
            let n = decimal(new_round as nat).len() as int;
            &&& t.subrange(0, 6) == "Round "@
            &&& digits_value(t.subrange(6, 6 + n)) == new_round
            &&& t.subrange(6 + n, t.len() as int) == " has started."@
        }),
        ({
            let t = event_text(old_round, new_round, GameEvent::Kill(k));
            let tail = k.victim_info.nickname@ + " ("@ + team_text(k.victim_info.team) + ")"@;
            &&& t.subrange(0, k.killer_info.nickname@.len() as int) == k.killer_info.nickname@
            &&& t.subrange(t.len() - tail.len(), t.len() as int) == tail
        }),
        event_text(old_round, new_round, GameEvent::PlayerJoined(p)).subrange(0, p@.len() as int)
            == p@,
        event_text(old_round, new_round, GameEvent::PlayerLeft(p)).subrange(0, p@.len() as int)
            == p@,
        ({
            let t = state_text(GameState::Battle(count), new_round);
            &&& t.subrange(0, 6) == "Time: "@
            &&& digits_value(t.subrange(6, t.len() as int)) == count
        }),
        ({
            let t = state_text(GameState::Countdown(count), new_round);
            let n = decimal(new_round as nat).len() as int;
            let m = decimal(count as nat).len() as int;
            &&& t.subrange(0, 6) == "Round "@
            &&& digits_value(t.subrange(6, 6 + n)) == new_round
            &&& t.subrange(6 + n, 6 + n + 13) == " starting in "@
            &&& digits_value(t.subrange(6 + n + 13, 6 + n + 13 + m)) == count
        }),
{
    reveal_strlit("Round ");
    reveal_strlit("Time: ");
    reveal_strlit(" starting in ");
    lemma_decimal_value(old_round as nat);
    lemma_decimal_value(new_round as nat);
    lemma_decimal_value(count as nat);
    let dold = decimal(old_round as nat);
    let dnew = decimal(new_round as nat);
    let dc = decimal(count as nat);
    lemma_concat_parts3("Round "@, dold, " ended. Winner is "@ + team_text(w) + "!"@);
    assert(event_text(old_round, new_round, GameEvent::RoundEnded(w)) =~= "Round "@ + dold + (
    " ended. Winner is "@ + team_text(w) + "!"@));
    lemma_concat_parts3("Round "@, dnew, " has started."@);
    let kt = event_text(old_round, new_round, GameEvent::Kill(k));
    let head = k.killer_info.nickname@;
    let mid = " ("@ + team_text(k.killer_info.team) + ") killed "@;
    let tail = k.victim_info.nickname@ + " ("@ + team_text(k.victim_info.team) + ")"@;
    assert(kt =~= head + mid + tail);
    lemma_concat_parts3(head, mid, tail);
    lemma_concat_parts3(p@, " joined the game."@, Seq::empty());
    assert(p@ + " joined the game."@ =~= p@ + " joined the game."@ + Seq::<char>::empty());
    lemma_concat_parts3(p@, " left the game."@, Seq::empty());
    assert(p@ + " left the game."@ =~= p@ + " left the game."@ + Seq::<char>::empty());
    lemma_concat_parts3("Time: "@, dc, Seq::empty());
    assert("Time: "@ + dc =~= "Time: "@ + dc + Seq::<char>::empty());
    lemma_concat_parts("Round "@, dnew, " starting in "@, dc, "..."@);
}

} // verus!
