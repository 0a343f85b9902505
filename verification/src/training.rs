use vstd::prelude::*;

use crate::game::feed_text::{digit, digit_str};
use crate::game::map::map_well_formed;
use crate::game::player::PlayerInfo;
use crate::net::protocol::objects::{MapDefinition, MapView, PlayerId, Point, Team};
use vstd::string::StringExecFns;

verus! {

/// How a local training game against the bots is played.
#[derive(Debug, Clone, Copy, PartialEq, Eq, Structural)]
pub enum TrainingMode {
    /// Four bots against four bots, watched by the user.
    Spectator,
    /// The user alone against four bots.
    HumanVsAi,
}

/// One tank of a training game as it is placed before the first tick.
#[derive(Debug, Clone, PartialEq)]
pub struct TrainingSlot {
    pub info: PlayerInfo,
    pub position: Point,
}

/// Mathematical model of a [`TrainingSlot`].
pub struct SlotView {
    pub id: PlayerId,
    pub nickname: Seq<char>,
    pub team: Team,
    pub position: Point,
}

impl View for TrainingSlot {
    type V = SlotView;

    open spec fn view(&self) -> SlotView {
        SlotView {
            id: self.info.id,
            nickname: self.info.nickname@,
            team: self.info.team,
            position: self.position,
        }
    }
}

/// The tanks of a training game, its mode and, when the user plays, the id
/// of the user's tank.
pub struct TrainingRoster {
    pub mode: TrainingMode,
    pub slots: Vec<TrainingSlot>,
    pub human_id: Option<PlayerId>,
}

/// A seat of a training game: the index of the spawn point it takes, and the
/// id and name of the tank that sits there.
pub struct Seat {
    pub spawn: int,
    pub id: PlayerId,
    pub nickname: Seq<char>,
}

/// A name followed by a one-digit number, as in `Blue 2`.
pub open spec fn numbered(prefix: Seq<char>, i: int) -> Seq<char> {
    prefix + seq![digit(i)]
}

/// The seats of a training game, in the order the tanks are created.
///
/// Spectator: `Blue 0`..`Blue 3` (ids 0 to 3) on spawn points 4 to 7, then
/// `Red 0`..`Red 3` (ids 4 to 7) on spawn points 0 to 3.
/// Against the bots: `Player` (id 0) on spawn point 4, then `Bot 0`..`Bot 3`
/// (ids 1 to 4) on spawn points 0 to 3.
pub open spec fn seats(mode: TrainingMode) -> Seq<Seat> {
    match mode {
        TrainingMode::Spectator => Seq::new(
            8,
            |k: int|
                if k < 4 {
                    Seat { spawn: k + 4, id: k as PlayerId, nickname: numbered("Blue "@, k) }
                } else {
                    Seat { spawn: k - 4, id: k as PlayerId, nickname: numbered("Red "@, k - 4) }
                },
        ),
        TrainingMode::HumanVsAi => Seq::new(
            5,
            |k: int|
                if k == 0 {
                    Seat { spawn: 4, id: 0, nickname: "Player"@ }
                } else {
                    Seat { spawn: k - 1, id: k as PlayerId, nickname: numbered("Bot "@, k - 1) }
                },
        ),
    }
}

/// The tank that sits on a seat, on the spawn point it takes.
pub open spec fn seated(seat: Seat, spawn: (Team, Point)) -> SlotView {
    SlotView { id: seat.id, nickname: seat.nickname, team: spawn.0, position: spawn.1 }
}

/// The tanks placed for the seats, in order. A seat whose spawn point the map
/// does not have stays empty.
pub open spec fn placed(seats: Seq<Seat>, spawns: Seq<(Team, Point)>) -> Seq<SlotView>
    decreases seats.len(),
{
    if seats.len() == 0 {
        Seq::empty()
    } else {
        let rest = placed(seats.drop_last(), spawns);
        let seat = seats.last();
        if 0 <= seat.spawn < spawns.len() {
            rest.push(seated(seat, spawns[seat.spawn]))
        } else {
            rest
        }
    }
}

/// The user's tank id: 0 when the user plays and the map has the spawn point
/// of the user's seat.
pub open spec fn human_of(mode: TrainingMode, spawns: Seq<(Team, Point)>) -> Option<PlayerId> {
    if mode == TrainingMode::HumanVsAi && 4 < spawns.len() {
        Some(0)
    } else {
        None
    }
}

/// The models of the slots of a roster.
spec fn slot_views(slots: Seq<TrainingSlot>) -> Seq<SlotView> {
    slots.map_values(|s: TrainingSlot| s@)
}

proof fn lemma_placed_ids_increase(seats: Seq<Seat>, spawns: Seq<(Team, Point)>)
    requires
        forall|i: int, j: int| 0 <= i < j < seats.len() ==> seats[i].id < seats[j].id,
    ensures
        forall|i: int, j: int|
            0 <= i < j < placed(seats, spawns).len() ==> placed(seats, spawns)[i].id < placed(
                seats,
                spawns,
            )[j].id,
        seats.len() > 0 ==> forall|i: int|
            0 <= i < placed(seats, spawns).len() ==> placed(seats, spawns)[i].id <= seats.last().id,
    decreases seats.len(),
{
    if seats.len() > 0 {
        let rest = seats.drop_last();
        lemma_placed_ids_increase(rest, spawns);
        if rest.len() > 0 {
            assert(rest.last().id < seats.last().id);
        }
    }
}

proof fn lemma_placed_all_seats(seats: Seq<Seat>, spawns: Seq<(Team, Point)>)
    requires
        forall|k: int| 0 <= k < seats.len() ==> 0 <= #[trigger] seats[k].spawn < spawns.len(),
    ensures
        placed(seats, spawns).len() == seats.len(),
        forall|k: int|
            0 <= k < seats.len() ==> #[trigger] placed(seats, spawns)[k] == seated(
                seats[k],
                spawns[seats[k].spawn],
            ),
    decreases seats.len(),
{
    if seats.len() > 0 {
        let rest = seats.drop_last();
        assert forall|k: int| 0 <= k < rest.len() implies 0 <= #[trigger] rest[k].spawn < spawns.len() by {
            assert(rest[k] == seats[k]);
        }
        lemma_placed_all_seats(rest, spawns);
        assert(0 <= seats[seats.len() - 1].spawn < spawns.len());
    }
}

/// No two tanks of a training roster share an id, whatever the map: the ids
/// grow along the roster.
pub proof fn lemma_roster_ids_distinct(mode: TrainingMode, spawns: Seq<(Team, Point)>)
    ensures
        forall|i: int, j: int|
            0 <= i < j < placed(seats(mode), spawns).len() ==> placed(seats(mode), spawns)[i].id
                < placed(seats(mode), spawns)[j].id,
{
    lemma_placed_ids_increase(seats(mode), spawns);
}

/// On a well-formed map every seat is filled and the teams are fixed by the
/// mode. Each tank has the id and name of its seat. Spectator: tank `k` has
/// id `k`; tanks 0 to 3 play for `Blue` and
/// tanks 4 to 7 for `Red`. Against the bots: the user's tank (id 0) plays for
/// `Blue` and the four bots (ids 1 to 4) for `Red`. Each tank stands on the
/// spawn point of its seat.
pub proof fn lemma_roster_on_well_formed_map(map: MapView, mode: TrainingMode)
    requires
        map_well_formed(map),
    ensures
        placed(seats(mode), map.spawn_points).len() == seats(mode).len(),
        forall|k: int|
            0 <= k < seats(mode).len() ==> {
                let t = #[trigger] placed(seats(mode), map.spawn_points)[k];
                &&& t.id == k
                &&& t.nickname == seats(mode)[k].nickname
                &&& t.position == map.spawn_points[seats(mode)[k].spawn].1
                &&& t.team == (if (mode == TrainingMode::Spectator && k < 4) || (mode
                    == TrainingMode::HumanVsAi && k == 0) {
                    Team::Blue
                } else {
                    Team::Red
                })
            },
{
    let s = seats(mode);
    assert forall|k: int| 0 <= k < s.len() implies 0 <= #[trigger] s[k].spawn < map.spawn_points.len() by {}
    lemma_placed_all_seats(s, map.spawn_points);
    assert forall|k: int| 0 <= k < s.len() implies {
        let t = #[trigger] placed(s, map.spawn_points)[k];
        &&& t.id == k
        &&& t.nickname == s[k].nickname
        &&& t.position == map.spawn_points[s[k].spawn].1
        &&& t.team == (if (mode == TrainingMode::Spectator && k < 4) || (mode
            == TrainingMode::HumanVsAi && k == 0) {
            Team::Blue
        } else {
            Team::Red
        })
    } by {
        assert(placed(s, map.spawn_points)[k] == seated(s[k], map.spawn_points[s[k].spawn]));
        let sp = s[k].spawn;
        assert(0 <= sp < 8);
        assert(map.spawn_points[sp] == map.spawn_points[sp]);
    }
}

/// Where each tank of a full training game stands, on any map with at least
/// eight spawn points: spectating, `Blue k` (tank `k`, `k < 4`) takes spawn
/// point `k + 4` and `Red k` (tank `k + 4`) takes spawn point `k`, so every
/// spawn point is used once; against the bots the user's tank takes spawn
/// point 4 and bot `k` (tank `k + 1`) spawn point `k`. Each tank has the team
/// and position of its spawn point, and tanks stand apart whenever the spawn
/// points do.
pub proof fn lemma_roster_spawn_points(mode: TrainingMode, spawns: Seq<(Team, Point)>)
    requires
        spawns.len() >= 8,
    ensures
        ({
            let r = placed(seats(mode), spawns);
            &&& mode == TrainingMode::Spectator ==> r.len() == 8
            &&& mode == TrainingMode::HumanVsAi ==> r.len() == 5
            &&& forall|k: int|
                0 <= k < r.len() ==> {
                    let sp = if mode == TrainingMode::Spectator {
                        if k < 4 {
                            k + 4
                        } else {
                            k - 4
                        }
                    } else {
                        if k == 0 {
                            4
                        } else {
                            k - 1
                        }
                    };
                    &&& (#[trigger] r[k]).id == k
                    &&& r[k].team == spawns[sp].0
                    &&& r[k].position == spawns[sp].1
                }
            &&& (forall|a: int, b: int|
                0 <= a < b < spawns.len() ==> spawns[a].1 != spawns[b].1) ==> forall|a: int, b: int|
                0 <= a < b < r.len() ==> (#[trigger] r[a]).position != (#[trigger] r[b]).position
        }),
{
    let s = seats(mode);
    assert forall|k: int| 0 <= k < s.len() implies 0 <= #[trigger] s[k].spawn < spawns.len() by {}
    lemma_placed_all_seats(s, spawns);
    let r = placed(s, spawns);
    assert forall|k: int| 0 <= k < r.len() implies r[k] == seated(s[k], spawns[s[k].spawn]) by {}
    if forall|a: int, b: int| 0 <= a < b < spawns.len() ==> spawns[a].1 != spawns[b].1 {
        assert forall|a: int, b: int| 0 <= a < b < r.len() implies (#[trigger] r[a]).position != (
        #[trigger] r[b]).position by {
            assert(r[a] == seated(s[a], spawns[s[a].spawn]));
            assert(r[b] == seated(s[b], spawns[s[b].spawn]));
            let x = s[a].spawn;
            let y = s[b].spawn;
            assert(x != y);
            if x < y {
                assert(spawns[x].1 != spawns[y].1);
            } else {
                assert(spawns[y].1 != spawns[x].1);
            }
        }
    }
}

fn numbered_name(prefix: &str, i: usize) -> (s: String)
    requires
        i < 4,
    ensures
        s@ == numbered(prefix@, i as int),
{
    String::from_str(prefix).concat(digit_str(i as u64))
}

fn seat_at(mode: TrainingMode, k: usize) -> (r: (usize, PlayerId, String))
    requires
        k < seats(mode).len(),
    ensures
        r.0 == seats(mode)[k as int].spawn,
        r.1 == seats(mode)[k as int].id,
        r.2@ == seats(mode)[k as int].nickname,
{
    match mode {
        TrainingMode::Spectator => {
            if k < 4 {
                (k + 4, k as PlayerId, numbered_name("Blue ", k))
            } else {
                (k - 4, k as PlayerId, numbered_name("Red ", k - 4))
            }
        },
        TrainingMode::HumanVsAi => {
            if k == 0 {
                (4, 0, String::from_str("Player"))
            } else {
                (k - 1, k as PlayerId, numbered_name("Bot ", k - 1))
            }
        },
    }
}

/// Places the tanks of a training game on the spawn points of `map`: one tank
/// per seat of `mode` whose spawn point the map has, in seat order, each on
/// the team of its spawn point.
pub fn training_roster(map: &MapDefinition, mode: TrainingMode) -> (r: TrainingRoster)
    ensures
        r.slots@.len() == placed(seats(mode), map@.spawn_points).len(),
        forall|k: int|
            0 <= k < r.slots@.len() ==> #[trigger] r.slots@[k]@ == placed(
                seats(mode),
                map@.spawn_points,
            )[k],
        r.human_id == human_of(mode, map@.spawn_points),
        r.mode == mode,
{
    let ghost spawns = map@.spawn_points;
    let n: usize = match mode {
        TrainingMode::Spectator => 8,
        TrainingMode::HumanVsAi => 5,
    };
    let mut slots: Vec<TrainingSlot> = Vec::new();
    let mut k: usize = 0;
    while k < n
        invariant
            n == seats(mode).len(),
            k <= n,
            spawns == map@.spawn_points,
            slot_views(slots@) == placed(seats(mode).take(k as int), spawns),
        decreases n - k,
    {
        let (spawn, id, nickname) = seat_at(mode, k);
        let ghost before = slots@;
        proof {
            assert(seats(mode).take(k as int + 1).drop_last() =~= seats(mode).take(k as int));
        }
        if spawn < map.spawn_points.len() {
            let (team, position) = map.spawn_points[spawn];
            slots.push(TrainingSlot { info: PlayerInfo::new(id, nickname, team), position });
            proof {
                assert(slot_views(slots@) =~= slot_views(before).push(slots@[slots@.len() - 1]@));
            }
        }
        k = k + 1;
    }
    proof {
        assert(seats(mode).take(n as int) =~= seats(mode));
        assert forall|k: int| 0 <= k < slots@.len() implies #[trigger] slots@[k]@ == placed(
            seats(mode),
            spawns,
        )[k] by {
            assert(slot_views(slots@)[k] == slots@[k]@);
        }
    }
    let human_id = if mode == TrainingMode::HumanVsAi && 4 < map.spawn_points.len() {
        Some(0)
    } else {
        None
    };
    TrainingRoster { mode, slots, human_id }
}

} // verus!
