use langtons_ant::ant::Ant;
use langtons_ant::dir::Dir;
use langtons_ant::grid::Color;
use langtons_ant::grid::Grid;
use langtons_ant::grid::last_elem;

#[test]
fn one_turn() {
    let mut ant = Ant::new();
    ant.do_one_turn();
    assert_eq!(ant.count_black_tiles(), 1);
}

#[test]
fn four_turns() {
    let mut ant = Ant::new();
    for _ in 0..4 {
        ant.do_one_turn();
    }
    assert_eq!(ant.count_black_tiles(), 4);
}

#[test]
fn five_turns() {
    let mut ant = Ant::new();
    for _ in 0..5 {
        ant.do_one_turn();
    }
    assert_eq!(ant.count_black_tiles(), 3);
}

#[test]
fn a_lot_of_turns() {
    let mut ant = Ant::new();
    for _ in 0..10000 {
        ant.do_one_turn();
    }
}

#[test]
fn fresh_world_has_no_marks() {
    let mut ant = Ant::new();
    assert_eq!(ant.count_black_tiles(), 0);
}

#[test]
fn rotation_cycles_clockwise() {
    for start in [Dir::Up, Dir::Right, Dir::Down, Dir::Left] {
        let mut d = start;
        for _ in 0..4 {
            d = Dir::from(i8::from(d) + 1);
        }
        assert_eq!(d, start);
    }
    assert_eq!(Dir::from(i8::from(Dir::Up) + 1), Dir::Right);
    assert_eq!(Dir::from(i8::from(Dir::Left) + 1), Dir::Up);
}

#[test]
fn rotation_cycles_counter_clockwise() {
    for start in [Dir::Up, Dir::Right, Dir::Down, Dir::Left] {
        let mut d = start;
        for _ in 0..4 {
            d = Dir::from(i8::from(d) - 1);
        }
        assert_eq!(d, start);
    }
    assert_eq!(Dir::from(i8::from(Dir::Up) - 1), Dir::Left);
    assert_eq!(Dir::from(i8::from(Dir::Right) - 1), Dir::Up);
}

#[test]
fn commit_then_load_round_trips() {
    let mut ant = Ant::new();
    ant.grid.set(3, 5, Color::Black);
    ant.grid.set(31, 0, Color::Black);
    let saved = ant.grid.clone();
    ant.go_to_new_grid(0, 0);
    assert_eq!(ant.grid, saved);
}

#[test]
fn blank_chunks_share_one_registry_entry() {
    let mut ant = Ant::new();
    assert_eq!(ant.registry_len(), 1);
    assert_eq!(ant.world_len(), 1);
    ant.go_to_new_grid(0, 1);
    ant.gy = 1;
    ant.go_to_new_grid(1, 1);
    ant.gx = 1;
    assert_eq!(ant.registry_len(), 1);
    assert_eq!(ant.world_len(), 2);
    assert_eq!(ant.count_black_tiles(), 0);
    assert_eq!(ant.registry_len(), 1);
    assert_eq!(ant.world_len(), 3);
}

#[test]
fn crossing_top_edge() {
    let mut ant = Ant::new();
    ant.ly = 0;
    ant.dir = Dir::Left;
    ant.do_one_turn();
    assert_eq!((ant.gx, ant.gy), (0, -1));
    assert_eq!((ant.lx, ant.ly), (16, 31));
    assert_eq!(ant.dir, Dir::Up);
}

#[test]
fn crossing_bottom_edge() {
    let mut ant = Ant::new();
    ant.ly = 31;
    ant.dir = Dir::Right;
    ant.do_one_turn();
    assert_eq!((ant.gx, ant.gy), (0, 1));
    assert_eq!((ant.lx, ant.ly), (16, 0));
    assert_eq!(ant.dir, Dir::Down);
}

#[test]
fn crossing_left_edge() {
    let mut ant = Ant::new();
    ant.lx = 0;
    ant.dir = Dir::Down;
    ant.do_one_turn();
    assert_eq!((ant.gx, ant.gy), (-1, 0));
    assert_eq!((ant.lx, ant.ly), (31, 16));
    assert_eq!(ant.dir, Dir::Left);
}

#[test]
fn crossing_right_edge() {
    let mut ant = Ant::new();
    ant.lx = 31;
    ant.dir = Dir::Up;
    ant.do_one_turn();
    assert_eq!((ant.gx, ant.gy), (1, 0));
    assert_eq!((ant.lx, ant.ly), (0, 16));
    assert_eq!(ant.dir, Dir::Right);
}

#[test]
fn visited_coordinates_are_never_removed() {
    let mut ant = Ant::new();
    let mut prev = ant.world_len();
    for _ in 0..2000 {
        ant.do_one_turn();
        let now = ant.world_len();
        assert!(now >= prev);
        prev = now;
    }
}

#[test]
fn grid_starts_all_white() {
    let g = Grid::new(4, 7);
    for y in 0..4 {
        for x in 0..7 {
            assert_eq!(g.get(y, x), Color::White);
        }
    }
    assert_eq!(g.count_black(), 0);
}

#[test]
fn grid_set_and_get() {
    let mut g = Grid::new(32, 32);
    g.set(2, 9, Color::Black);
    assert_eq!(g.get(2, 9), Color::Black);
    assert_eq!(g.get(9, 2), Color::White);
    assert_eq!(g.count_black(), 1);
    g.set(2, 9, Color::White);
    assert_eq!(g.get(2, 9), Color::White);
    assert_eq!(g.count_black(), 0);
}

#[test]
fn grid_iter_row_major() {
    let mut g = Grid::new(2, 3);
    g.set(1, 0, Color::Black);
    let cells = g.iter();
    assert_eq!(cells.len(), 6);
    assert_eq!(cells[3], Color::Black);
    assert_eq!(cells.iter().filter(|&&c| c == Color::Black).count(), 1);
}

#[test]
fn grid_equality_is_structural() {
    let mut a = Grid::new(32, 32);
    let b = Grid::new(32, 32);
    assert_eq!(a, b);
    assert_eq!(a, a.clone());
    a.set(0, 0, Color::Black);
    assert_ne!(a, b);
    let c = Grid::new(16, 16);
    assert_ne!(b, c);
}

#[test]
fn last_elem_of_row() {
    assert_eq!(last_elem(32), 31);
    assert_eq!(last_elem(1), 0);
}
