use neuroblasters::game::pathfinding::{find_path_a_star, is_cell_blocked, GridPos};
use neuroblasters::net::protocol::objects::{MapDefinition, MapName, Point, RectWall};

fn open_map(width: i32, height: i32) -> MapDefinition {
    MapDefinition { width, height, walls: vec![], spawn_points: vec![] }
}

fn g(x: i32, y: i32) -> GridPos {
    GridPos { x, y }
}

fn check_walk(start: GridPos, end: GridPos, path: &[GridPos], map: &MapDefinition) {
    let mut prev = start;
    for (i, p) in path.iter().enumerate() {
        assert_eq!((prev.x - p.x).abs() + (prev.y - p.y).abs(), 1);
        assert!(!is_cell_blocked(*p, map));
        assert_ne!(*p, start);
        for q in &path[i + 1..] {
            assert_ne!(p, q);
        }
        prev = *p;
    }
    if let Some(last) = path.last() {
        assert_eq!(*last, end);
    } else {
        assert_eq!(start, end);
    }
}

#[test]
fn cells_outside_the_map_are_blocked() {
    let map = open_map(400, 200);
    assert!(!is_cell_blocked(g(0, 0), &map));
    assert!(!is_cell_blocked(g(9, 4), &map));
    assert!(is_cell_blocked(g(10, 0), &map));
    assert!(is_cell_blocked(g(0, 5), &map));
    assert!(is_cell_blocked(g(-1, 0), &map));
    assert!(is_cell_blocked(g(i32::MAX, i32::MIN), &map));
}

#[test]
fn cells_overlapping_walls_are_blocked() {
    let mut map = open_map(400, 400);
    map.walls.push(RectWall { min: Point { x: 100, y: 100 }, max: Point { x: 140, y: 300 } });
    // Cell 2 covers [80, 120]: overlaps the wall's interior.
    assert!(is_cell_blocked(g(2, 3), &map));
    // Cell 1 covers [40, 80]: only reaches up to 80 < 100.
    assert!(!is_cell_blocked(g(1, 3), &map));
    // Cell 3 covers [120, 160]; cell 4 starts at 160 > 140.
    assert!(is_cell_blocked(g(3, 3), &map));
    assert!(!is_cell_blocked(g(4, 3), &map));
    // Touching the border only is no overlap: cell y=7 covers [280, 320], wall ends at 300.
    assert!(is_cell_blocked(g(2, 7), &map));
    assert!(!is_cell_blocked(g(2, 8), &map));
}

#[test]
fn path_to_same_cell_is_empty() {
    let map = open_map(400, 400);
    assert_eq!(find_path_a_star(g(3, 3), g(3, 3), &map), Some(vec![]));
    // Even from a blocked cell.
    assert_eq!(find_path_a_star(g(-5, -5), g(-5, -5), &map), Some(vec![]));
}

#[test]
fn straight_path_in_open_map() {
    let map = open_map(400, 400);
    let path = find_path_a_star(g(0, 0), g(3, 0), &map).unwrap();
    assert_eq!(path, vec![g(1, 0), g(2, 0), g(3, 0)]);
}

#[test]
fn path_goes_around_a_wall() {
    let mut map = open_map(400, 400);
    // A vertical wall over columns 2..3, rows 0..7.
    map.walls.push(RectWall { min: Point { x: 80, y: 0 }, max: Point { x: 120, y: 300 } });
    let start = g(0, 0);
    let end = g(5, 0);
    let path = find_path_a_star(start, end, &map).unwrap();
    check_walk(start, end, &path, &map);
    assert!(path.iter().any(|p| p.y >= 8));
}

#[test]
fn unreachable_goal_gives_no_path() {
    let map = open_map(400, 400);
    // Goal outside the map.
    assert_eq!(find_path_a_star(g(0, 0), g(20, 0), &map), None);
    // Goal enclosed by walls.
    let mut walled = open_map(400, 400);
    walled.walls.push(RectWall { min: Point { x: 150, y: 150 }, max: Point { x: 250, y: 250 } });
    assert!(is_cell_blocked(g(4, 4), &walled));
    assert_eq!(find_path_a_star(g(0, 0), g(4, 4), &walled), None);
}

#[test]
fn path_on_the_game_maps() {
    for name in [MapName::Basic, MapName::Loss, MapName::Tiga] {
        let map = MapDefinition::load_name(name);
        let (_, a) = map.spawn_points[0];
        let (_, b) = map.spawn_points[7];
        let start = g(a.x / 40, a.y / 40);
        let end = g(b.x / 40, b.y / 40);
        let path = find_path_a_star(start, end, &map).expect("spawn points are connected");
        check_walk(start, end, &path, &map);
    }
}

#[test]
fn search_gives_up_when_the_goal_is_far() {
    // A wide open map: the goal is reachable, but a straight run of more than
    // 500 expansions is needed when the heuristic is blocked by a long wall.
    let mut map = open_map(40 * 200, 40 * 200);
    map.walls.push(RectWall { min: Point { x: 40 * 5, y: 0 }, max: Point { x: 40 * 6, y: 40 * 199 } });
    assert_eq!(find_path_a_star(g(0, 0), g(10, 0), &map), None);
}

#[test]
fn straight_path_on_empty_map() {
    let map = open_map(800, 600);
    let path = find_path_a_star(g(0, 0), g(2, 0), &map);
    assert_eq!(path, Some(vec![g(1, 0), g(2, 0)]));
}

#[test]
fn path_around_a_wall_is_shortest() {
    // A wall covering cells (2,0) to (2,3) of a 5x5-cell map: the walk must go
    // round its bottom end, 2 steps down-past, across, and back up.
    let map = MapDefinition {
        width: 200,
        height: 200,
        walls: vec![RectWall { min: Point { x: 80, y: 0 }, max: Point { x: 120, y: 160 } }],
        spawn_points: vec![],
    };
    let start = g(0, 0);
    let end = g(4, 0);
    let path = find_path_a_star(start, end, &map).expect("a path exists");
    check_walk(start, end, &path, &map);
    // Down 4 rows, across 4 columns, up 4 rows.
    assert_eq!(path.len(), 12);
}

#[test]
fn goal_four_steps_away_is_found() {
    let map = open_map(800, 600);
    let start = g(3, 3);
    let end = g(5, 5);
    let path = find_path_a_star(start, end, &map).expect("a 4-step walk exists");
    check_walk(start, end, &path, &map);
    assert_eq!(path.len(), 4);
}
