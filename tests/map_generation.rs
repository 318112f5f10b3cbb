use whatever::geometry::Rect;
use whatever::map::{CellType, GameMap, RoomRoll, MAP_COUNT, MAP_HEIGHT, MAP_WIDTH};

fn cell(m: &GameMap, x: i32, y: i32) -> CellType {
    m.cells[(y * m.width + x) as usize]
}

fn overlap(a: &Rect, b: &Rect) -> bool {
    a.x1 <= b.x2 && a.x2 >= b.x1 && a.y1 <= b.y2 && a.y2 >= b.y1
}

/// Cells reachable from (x, y) over anything but walls.
fn reachable(m: &GameMap, x: i32, y: i32) -> Vec<bool> {
    let mut seen = vec![false; m.cells.len()];
    let mut stack = vec![(x, y)];
    while let Some((cx, cy)) = stack.pop() {
        if cx < 0 || cy < 0 || cx >= m.width || cy >= m.height {
            continue;
        }
        let i = (cy * m.width + cx) as usize;
        if seen[i] || m.cells[i] == CellType::Wall {
            continue;
        }
        seen[i] = true;
        stack.push((cx + 1, cy));
        stack.push((cx - 1, cy));
        stack.push((cx, cy + 1));
        stack.push((cx, cy - 1));
    }
    seen
}

fn check_layout(m: &GameMap) {
    assert_eq!(m.width, MAP_WIDTH);
    assert_eq!(m.height, MAP_HEIGHT);
    assert_eq!(m.cells.len(), MAP_COUNT);
    assert!(!m.rooms.is_empty());
    let stairs = m.rooms[m.rooms.len() - 1].center();
    assert_eq!(cell(m, stairs.0, stairs.1), CellType::DownStairs);
    for (i, a) in m.rooms.iter().enumerate() {
        assert!(a.x1 >= 0 && a.x2 <= MAP_WIDTH - 2 && a.y1 >= 0 && a.y2 <= MAP_HEIGHT - 2);
        assert!(a.x2 - a.x1 >= 6 && a.x2 - a.x1 <= 10 && a.y2 - a.y1 >= 6 && a.y2 - a.y1 <= 10);
        for b in m.rooms.iter().skip(i + 1) {
            assert!(!overlap(a, b));
        }
        for y in a.y1 + 1..=a.y2 {
            for x in a.x1 + 1..=a.x2 {
                if (x, y) != stairs {
                    assert_eq!(cell(m, x, y), CellType::Floor);
                }
            }
        }
    }
    assert!(m.rooms.len() <= 30);
    assert_eq!(m.cells.iter().filter(|c| **c == CellType::DownStairs).count(), 1);
    for x in 0..m.width {
        assert_eq!(cell(m, x, 0), CellType::Wall);
        assert_eq!(cell(m, x, m.height - 1), CellType::Wall);
    }
    for y in 0..m.height {
        assert_eq!(cell(m, 0, y), CellType::Wall);
        assert_eq!(cell(m, m.width - 1, y), CellType::Wall);
    }
    let first = m.rooms[0].center();
    let seen = reachable(m, first.0, first.1);
    assert!(seen[(stairs.1 * m.width + stairs.0) as usize]);
    for r in m.rooms.iter() {
        let c = r.center();
        assert!(seen[(c.1 * m.width + c.0) as usize]);
    }
}

#[test]
fn generated_maps_hold_their_layout() {
    for depth in 1..20 {
        let m = GameMap::generate_map_rooms_and_tunnels(depth);
        assert_eq!(m.depth, depth);
        check_layout(&m);
        assert!(m.revealed_cells.iter().all(|r| !r));
        assert!(m.cell_content.iter().all(|c| c.is_empty()));
    }
}

#[test]
fn rolls_that_overlap_or_stick_out_are_skipped() {
    let rolls = vec![
        RoomRoll { x: 2, y: 2, w: 8, h: 6, horizontal_first: true },
        RoomRoll { x: 5, y: 5, w: 8, h: 8, horizontal_first: true },
        RoomRoll { x: 75, y: 2, w: 8, h: 8, horizontal_first: false },
        RoomRoll { x: 30, y: 20, w: 10, h: 10, horizontal_first: false },
        RoomRoll { x: 50, y: 3, w: 5, h: 7, horizontal_first: false },
    ];
    let m = GameMap::from_room_rolls(2, &rolls);
    assert_eq!(
        m.rooms,
        vec![Rect { x1: 2, y1: 2, x2: 10, y2: 8 }, Rect { x1: 30, y1: 20, x2: 40, y2: 30 }]
    );
    check_layout(&m);
    // The corridor leaves the first room's center (6, 5) along the column first.
    assert_eq!(cell(&m, 6, 20), CellType::Floor);
    assert_eq!(cell(&m, 20, 25), CellType::Floor);
    assert_eq!(cell(&m, 20, 5), CellType::Wall);
}

#[test]
fn horizontal_first_corridor() {
    let rolls = vec![
        RoomRoll { x: 2, y: 2, w: 8, h: 6, horizontal_first: true },
        RoomRoll { x: 30, y: 20, w: 10, h: 10, horizontal_first: true },
    ];
    let m = GameMap::from_room_rolls(1, &rolls);
    assert_eq!(cell(&m, 20, 5), CellType::Floor);
    assert_eq!(cell(&m, 35, 15), CellType::Floor);
    assert_eq!(cell(&m, 6, 20), CellType::Wall);
}

#[test]
fn no_rolls_give_no_rooms() {
    let m = GameMap::from_room_rolls(1, &Vec::new());
    assert!(m.rooms.is_empty());
    assert!(m.cells.iter().all(|c| *c == CellType::Wall));
}

#[test]
fn exits_and_opacity() {
    let mut m = GameMap::from_room_rolls(1, &vec![RoomRoll { x: 2, y: 2, w: 8, h: 6, horizontal_first: true }]);
    m.populate_blocked();
    let idx = (4 * m.width + 4) as usize;
    let exits = m.get_available_exits(idx);
    assert_eq!(exits.len(), 8);
    assert_eq!(exits[0], (idx - 1, 100));
    assert_eq!(exits[4], (idx - m.width as usize - 1, 145));
    let corner = (3 * m.width + 3) as usize;
    assert_eq!(m.get_available_exits(corner).len(), 3);
    assert!(m.is_opaque(0));
    assert!(!m.is_opaque(idx));
}

#[test]
fn rect_basics() {
    let r = Rect::new(2, 3, 8, 6);
    assert_eq!(r, Rect { x1: 2, y1: 3, x2: 10, y2: 9 });
    assert_eq!(r.center(), (6, 6));
    assert!(r.intersects(&Rect::new(10, 9, 6, 6)));
    assert!(!r.intersects(&Rect::new(11, 9, 6, 6)));
}


#[test]
fn well_formedness_check() {
    let mut m = GameMap::blank(1);
    assert!(m.is_well_formed());
    m.blocked.pop();
    assert!(!m.is_well_formed());
    let mut z = GameMap::blank(1);
    z.width = 0;
    assert!(!z.is_well_formed());
}

#[test]
fn exits_stay_inside_the_border() {
    let m = GameMap::blank(1);
    let idx = (5 * m.width + 78) as usize;
    let exits = m.get_available_exits(idx);
    assert_eq!(exits.len(), 5);
    assert!(exits.iter().all(|(j, _)| (*j as i32) % m.width <= 78));
    let corner = (m.width + 1) as usize;
    assert_eq!(m.get_available_exits(corner).len(), 3);
}
