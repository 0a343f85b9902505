use vstd::prelude::*;

use crate::net::protocol::objects::{MapDefinition, MapName, MapView, Point, RectWall, Team};

verus! {

/// Position of a map in the cycling order `Basic`, `Loss`, `Tiga`.
pub open spec fn map_index(m: MapName) -> int {
    match m {
        MapName::Basic => 0,
        MapName::Loss => 1,
        MapName::Tiga => 2,
    }
}

/// The map at a position of the cycling order (taken modulo the number of maps).
pub open spec fn map_at(i: int) -> MapName {
    let k = i % 3;
    if k == 0 {
        MapName::Basic
    } else if k == 1 {
        MapName::Loss
    } else {
        MapName::Tiga
    }
}

impl MapName {
    /// The next map in the cycling order, wrapping from the last to the first.
    pub fn next(self) -> (r: Self)
        ensures
            r == map_at(map_index(self) + 1),
    {
        match self {
            MapName::Basic => MapName::Loss,
            MapName::Loss => MapName::Tiga,
            MapName::Tiga => MapName::Basic,
        }
    }

    /// The previous map in the cycling order, wrapping from the first to the last.
    pub fn prev(self) -> (r: Self)
        ensures
            r == map_at(map_index(self) + 3 - 1),
    {
        match self {
            MapName::Basic => MapName::Tiga,
            MapName::Loss => MapName::Basic,
            MapName::Tiga => MapName::Loss,
        }
    }
}

/// Going to the next map and then back to the previous one returns the
/// map it started from, and the other way round.
pub proof fn lemma_next_prev_inverse(m: MapName)
    ensures
        map_at(map_index(map_at(map_index(m) + 1)) + 3 - 1) == m,
        map_at(map_index(map_at(map_index(m) + 3 - 1)) + 1) == m,
{
}

/// Stepping to the next map as many times as there are maps returns to the
/// starting map, and no fewer steps do.
pub proof fn lemma_next_cycles_through_all_maps(m: MapName)
    ensures
        map_at(map_index(m) + 3) == m,
        map_at(map_index(m) + 1) != m,
        map_at(map_index(m) + 2) != m,
        map_at(map_index(m) + 1) != map_at(map_index(m) + 2),
{
}

pub open spec fn spec_wall(x0: int, y0: int, x1: int, y1: int) -> RectWall {
    RectWall { min: Point { x: x0 as i32, y: y0 as i32 }, max: Point { x: x1 as i32, y: y1 as i32 } }
}

pub open spec fn spec_spawn(team: Team, x: int, y: int) -> (Team, Point) {
    (team, Point { x: x as i32, y: y as i32 })
}

fn wall(x0: i32, y0: i32, x1: i32, y1: i32) -> (w: RectWall)
    ensures
        w == spec_wall(x0 as int, y0 as int, x1 as int, y1 as int),
{
    RectWall { min: Point { x: x0, y: y0 }, max: Point { x: x1, y: y1 } }
}

fn spawn(team: Team, x: i32, y: i32) -> (s: (Team, Point))
    ensures
        s == spec_spawn(team, x as int, y as int),
{
    (team, Point { x, y })
}
/// The layout of each map: size, walls and spawn points.
pub open spec fn spec_map(name: MapName) -> MapView {
    match name {
            MapName::Basic => MapView {
                width: 1600,
                height: 900,
                walls: seq![
                    spec_wall(410, 658, 1194, 720),
                    spec_wall(417, 173, 1170, 238),
                    spec_wall(1157, 386, 1358, 431),
                    spec_wall(1326, 527, 1537, 570),
                    spec_wall(100, 535, 321, 584),
                    spec_wall(259, 372, 504, 427),
                    spec_wall(787, 322, 828, 566),
                ],
                spawn_points: seq![
                    spec_spawn(Team::Red, 460, 822),
                    spec_spawn(Team::Red, 634, 818),
                    spec_spawn(Team::Red, 851, 823),
                    spec_spawn(Team::Red, 1095, 823),
                    spec_spawn(Team::Blue, 1061, 77),
                    spec_spawn(Team::Blue, 840, 70),
                    spec_spawn(Team::Blue, 666, 74),
                    spec_spawn(Team::Blue, 479, 78),
                ],
            },
            MapName::Loss => MapView {
                width: 1080,
                height: 1080,
                walls: seq![
                    spec_wall(86, 479, 980, 574),
                    spec_wall(475, 87, 596, 1006),
                    spec_wall(184, 168, 246, 482),
                    spec_wall(182, 571, 243, 901),
                    spec_wall(352, 570, 405, 900),
                    spec_wall(686, 173, 747, 478),
                    spec_wall(833, 216, 893, 480),
                    spec_wall(690, 570, 753, 904),
                    spec_wall(754, 810, 972, 866),
                ],
                spawn_points: seq![
                    spec_spawn(Team::Red, 792, 407),
                    spec_spawn(Team::Red, 790, 235),
                    spec_spawn(Team::Red, 299, 627),
                    spec_spawn(Team::Red, 295, 758),
                    spec_spawn(Team::Blue, 303, 403),
                    spec_spawn(Team::Blue, 420, 283),
                    spec_spawn(Team::Blue, 643, 746),
                    spec_spawn(Team::Blue, 845, 691),
                ],
            },
            MapName::Tiga => MapView {
                width: 800,
                height: 600,
                walls: seq![
                    spec_wall(46, 137, 356, 175),
                    spec_wall(478, 450, 757, 487),
                    spec_wall(387, 240, 437, 384),
                    spec_wall(52, 443, 353, 488),
                    spec_wall(511, 133, 742, 177),
                ],
                spawn_points: seq![
                    spec_spawn(Team::Red, 69, 78),
                    spec_spawn(Team::Red, 141, 77),
                    spec_spawn(Team::Red, 225, 80),
                    spec_spawn(Team::Red, 298, 76),
                    spec_spawn(Team::Blue, 503, 537),
                    spec_spawn(Team::Blue, 581, 541),
                    spec_spawn(Team::Blue, 654, 542),
                    spec_spawn(Team::Blue, 716, 544),
                ],
            },
    }
}

/// A wall lies inside the map and has positive width and height.
pub open spec fn wall_inside(map: MapView, w: RectWall) -> bool {
    0 <= w.min.x < w.max.x <= map.width && 0 <= w.min.y < w.max.y <= map.height
}

/// A point lies on a wall (its border included).
pub open spec fn point_on_wall(p: Point, w: RectWall) -> bool {
    w.min.x <= p.x <= w.max.x && w.min.y <= p.y <= w.max.y
}

/// A map is well formed when every wall lies inside it, it has four spawn
/// points for `Red` followed by four for `Blue`, and every spawn point is
/// strictly inside the map and off every wall.
pub open spec fn map_well_formed(map: MapView) -> bool {
    &&& forall|i: int| 0 <= i < map.walls.len() ==> #[trigger] wall_inside(map, map.walls[i])
    &&& map.spawn_points.len() == 8
    &&& forall|i: int| 0 <= i < 4 ==> (#[trigger] map.spawn_points[i]).0 == Team::Red
    &&& forall|i: int| 4 <= i < 8 ==> (#[trigger] map.spawn_points[i]).0 == Team::Blue
    &&& forall|i: int|
        #![trigger map.spawn_points[i]]
        0 <= i < 8 ==> {
            let p = map.spawn_points[i].1;
            &&& 0 < p.x < map.width
            &&& 0 < p.y < map.height
            &&& forall|j: int|
                0 <= j < map.walls.len() ==> !point_on_wall(p, #[trigger] map.walls[j])
        }
}

impl MapDefinition {
    /// The default map.
    pub fn load() -> (m: Self)
        ensures
            m@ == spec_map(MapName::Basic),
    {
        Self::load_name(MapName::Basic)
    }

    /// The map with the given name.
    pub fn load_name(name: MapName) -> (m: Self)
        ensures
            m@ == spec_map(name),
    {
        match name {
            MapName::Basic => Self {
                width: 1600,
                height: 900,
                walls: vec![
                    wall(410, 658, 1194, 720),
                    wall(417, 173, 1170, 238),
                    wall(1157, 386, 1358, 431),
                    wall(1326, 527, 1537, 570),
                    wall(100, 535, 321, 584),
                    wall(259, 372, 504, 427),
                    wall(787, 322, 828, 566),
                ],
                spawn_points: vec![
                    spawn(Team::Red, 460, 822),
                    spawn(Team::Red, 634, 818),
                    spawn(Team::Red, 851, 823),
                    spawn(Team::Red, 1095, 823),
                    spawn(Team::Blue, 1061, 77),
                    spawn(Team::Blue, 840, 70),
                    spawn(Team::Blue, 666, 74),
                    spawn(Team::Blue, 479, 78),
                ],
            },
            MapName::Loss => Self {
                width: 1080,
                height: 1080,
                walls: vec![
                    wall(86, 479, 980, 574),
                    wall(475, 87, 596, 1006),
                    wall(184, 168, 246, 482),
                    wall(182, 571, 243, 901),
                    wall(352, 570, 405, 900),
                    wall(686, 173, 747, 478),
                    wall(833, 216, 893, 480),
                    wall(690, 570, 753, 904),
                    wall(754, 810, 972, 866),
                ],
                spawn_points: vec![
                    spawn(Team::Red, 792, 407),
                    spawn(Team::Red, 790, 235),
                    spawn(Team::Red, 299, 627),
                    spawn(Team::Red, 295, 758),
                    spawn(Team::Blue, 303, 403),
                    spawn(Team::Blue, 420, 283),
                    spawn(Team::Blue, 643, 746),
                    spawn(Team::Blue, 845, 691),
                ],
            },
            MapName::Tiga => Self {
                width: 800,
                height: 600,
                walls: vec![
                    wall(46, 137, 356, 175),
                    wall(478, 450, 757, 487),
                    wall(387, 240, 437, 384),
                    wall(52, 443, 353, 488),
                    wall(511, 133, 742, 177),
                ],
                spawn_points: vec![
                    spawn(Team::Red, 69, 78),
                    spawn(Team::Red, 141, 77),
                    spawn(Team::Red, 225, 80),
                    spawn(Team::Red, 298, 76),
                    spawn(Team::Blue, 503, 537),
                    spawn(Team::Blue, 581, 541),
                    spawn(Team::Blue, 654, 542),
                    spawn(Team::Blue, 716, 544),
                ],
            },
        }
    }
}

/// Every map the game ships is well formed (see [`map_well_formed`]).
pub proof fn lemma_maps_well_formed(name: MapName)
    ensures
        map_well_formed(spec_map(name)),
{
    let map = spec_map(name);
    assert forall|i: int| 0 <= i < 8 implies {
        let p = #[trigger] map.spawn_points[i].1;
        forall|j: int| 0 <= j < map.walls.len() ==> !point_on_wall(p, #[trigger] map.walls[j])
    } by {
        assert forall|j: int| 0 <= j < map.walls.len() implies !point_on_wall(
            map.spawn_points[i].1,
            #[trigger] map.walls[j],
        ) by {
            assert(0 <= j < map.walls.len());
        }
    }
}

} // verus!
