use neuroblasters::net::protocol::objects::{MapDefinition, MapName, Point, RectWall, Team};

#[test]
fn map_name_next_cycles_forward() {
    let first = MapName::Basic;
    let next = first.next();
    assert_eq!(next, MapName::Loss);
}

#[test]
fn map_name_prev_cycles_backward() {
    let first = MapName::Basic;
    let prev = first.prev();
    assert_eq!(prev, MapName::Tiga);
}

#[test]
fn map_name_next_then_prev_returns_original() {
    let original = MapName::Basic;
    let result = original.next().prev();
    assert_eq!(original, result);
}

#[test]
fn map_name_cycle_has_three_maps() {
    for m in [MapName::Basic, MapName::Loss, MapName::Tiga] {
        assert_eq!(m.next().next().next(), m);
        assert_eq!(m.prev().next(), m);
        assert_ne!(m.next(), m);
    }
    assert_eq!(MapName::Tiga.next(), MapName::Basic);
    assert_eq!(MapName::Loss.prev(), MapName::Basic);
}

#[test]
fn load_returns_basic_map() {
    let m = MapDefinition::load();
    assert_eq!(m, MapDefinition::load_name(MapName::Basic));
    assert_eq!(m.width, 1600);
    assert_eq!(m.height, 900);
    assert_eq!(m.walls.len(), 7);
    assert_eq!(
        m.walls[0],
        RectWall { min: Point { x: 410, y: 658 }, max: Point { x: 1194, y: 720 } }
    );
    assert_eq!(m.spawn_points[0], (Team::Red, Point { x: 460, y: 822 }));
    assert_eq!(m.spawn_points[7], (Team::Blue, Point { x: 479, y: 78 }));
}

#[test]
fn loaded_maps_have_expected_sizes() {
    let loss = MapDefinition::load_name(MapName::Loss);
    assert_eq!((loss.width, loss.height, loss.walls.len()), (1080, 1080, 9));
    assert_eq!(
        loss.walls[8],
        RectWall { min: Point { x: 754, y: 810 }, max: Point { x: 972, y: 866 } }
    );
    let tiga = MapDefinition::load_name(MapName::Tiga);
    assert_eq!((tiga.width, tiga.height, tiga.walls.len()), (800, 600, 5));
    assert_eq!(tiga.spawn_points[4], (Team::Blue, Point { x: 503, y: 537 }));
}

#[test]
fn loaded_maps_are_well_formed() {
    for name in [MapName::Basic, MapName::Loss, MapName::Tiga] {
        let m = MapDefinition::load_name(name);
        for w in &m.walls {
            assert!(0 <= w.min.x && w.min.x < w.max.x && w.max.x <= m.width);
            assert!(0 <= w.min.y && w.min.y < w.max.y && w.max.y <= m.height);
        }
        assert_eq!(m.spawn_points.len(), 8);
        for (i, (team, p)) in m.spawn_points.iter().enumerate() {
            assert_eq!(*team, if i < 4 { Team::Red } else { Team::Blue });
            assert!(0 < p.x && p.x < m.width && 0 < p.y && p.y < m.height);
            for w in &m.walls {
                let on = w.min.x <= p.x && p.x <= w.max.x && w.min.y <= p.y && p.y <= w.max.y;
                assert!(!on);
            }
        }
    }
}
