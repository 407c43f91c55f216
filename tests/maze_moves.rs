use tilemaze::maze::{build_maze, create_maze, Maze, OUT_OF_BOUNDS};
use tilemaze::tile::{create_templates, Tile, Types};

use tilemaze::tile::Types::{Empty as E, Gold as G, Player as P, Wall as W};

fn walled_in() -> Maze {
    let t = Tile::new([[E, W, E], [W, P, W], [E, W, E]]);
    Maze::from_parts(vec![t], 1, (1, 1), None).unwrap()
}

fn open_maze(size: u16, player_tile: (usize, usize), gold_tile: Option<(usize, usize)>) -> Maze {
    let n = (size as usize) * (size as usize);
    build_maze(size, &vec![3; n], &vec![0; n], player_tile, gold_tile)
}

#[test]
fn walled_in_player_cannot_move() {
    let mut m = walled_in();
    for d in 0..4u8 {
        assert_eq!(m.move_player(d), Ok(W));
        assert_eq!(m.player(), (1, 1));
        assert_eq!(m.cell_kind(1, 1), P);
    }
}

#[test]
fn wall_refusal_changes_no_cell() {
    let mut m = walled_in();
    let before: Vec<Types> = (0..3).flat_map(|y| (0..3).map(move |x| (x, y))).map(|(x, y)| m.cell_kind(x, y)).collect();
    assert_eq!(m.move_player(0), Ok(W));
    let after: Vec<Types> = (0..3).flat_map(|y| (0..3).map(move |x| (x, y))).map(|(x, y)| m.cell_kind(x, y)).collect();
    assert_eq!(before, after);
}

#[test]
fn six_steps_east_wrap_around() {
    let mut m = open_maze(2, (0, 0), None);
    assert_eq!(m.player(), (1, 1));
    let expected = [(2, 1), (3, 1), (4, 1), (5, 1), (0, 1), (1, 1)];
    for want in expected {
        assert_eq!(m.move_player(0), Ok(E));
        assert_eq!(m.player(), want);
    }
}

#[test]
fn every_direction_stays_inside() {
    for d in 0..4u8 {
        let mut m = open_maze(2, (0, 0), None);
        for _ in 0..7 {
            let _ = m.move_player(d);
            let (x, y) = m.player();
            assert!(x < 6 && y < 6);
        }
    }
    let mut m = open_maze(1, (0, 0), None);
    assert_eq!(m.move_player(1), Ok(E));
    assert_eq!(m.player(), (1, 0));
    assert_eq!(m.move_player(1), Ok(E));
    assert_eq!(m.player(), (1, 2));
    assert_eq!(m.move_player(2), Ok(E));
    assert_eq!(m.player(), (0, 2));
    assert_eq!(m.move_player(2), Ok(E));
    assert_eq!(m.player(), (2, 2));
    assert_eq!(m.move_player(3), Ok(E));
    assert_eq!(m.player(), (2, 0));
}

#[test]
fn gold_is_collected_once() {
    let t = Tile::new([[E, E, E], [E, P, E], [E, G, E]]);
    let mut m = Maze::from_parts(vec![t], 1, (1, 1), Some((2, 1))).unwrap();
    assert_eq!(m.gold(), Some((2, 1)));
    assert_eq!(m.move_player(0), Ok(G));
    assert_eq!(m.gold(), None);
    assert_eq!(m.player(), (2, 1));
    assert_eq!(m.move_player(0), Ok(E));
    assert_eq!(m.player(), (0, 1));
    assert_eq!(m.move_player(2), Ok(E));
    assert_eq!(m.move_player(2), Ok(E));
    assert_eq!(m.player(), (1, 1));
    assert_eq!(m.cell_kind(2, 1), E);
}

#[test]
fn one_player_cell_after_moves() {
    let mut m = open_maze(3, (1, 1), Some((2, 2)));
    let dirs = [0u8, 0, 3, 3, 3, 2, 1, 0, 0, 0, 3];
    for d in dirs {
        let _ = m.move_player(d);
        let mut players = 0;
        for y in 0..9 {
            for x in 0..9 {
                if m.cell_kind(x, y) == P {
                    players += 1;
                    assert_eq!(m.player(), (x, y));
                }
            }
        }
        assert_eq!(players, 1);
    }
}

#[test]
fn stepping_back_finds_empty_cell() {
    let mut m = open_maze(2, (0, 0), Some((1, 1)));
    assert_eq!(m.move_player(3), Ok(E));
    assert_eq!(m.cell_kind(1, 1), E);
    assert_eq!(m.move_player(1), Ok(E));
    assert_eq!(m.player(), (1, 1));
}

#[test]
fn unknown_direction_reports_player() {
    let mut m = open_maze(1, (0, 0), None);
    assert_eq!(m.move_player(7), Ok(P));
    assert_eq!(m.player(), (1, 1));
}

#[test]
fn empty_maze_move_is_out_of_bounds() {
    let mut m = create_maze(0);
    assert_eq!(m.size(), 0);
    assert_eq!(m.move_player(0), Err(OUT_OF_BOUNDS));
    assert_eq!(OUT_OF_BOUNDS, "Out of bounds movement!");
    assert!(m.get_tile(0, 0).is_none());
}

#[test]
fn from_parts_rejects_bad_layouts() {
    let t = Tile::new([[E, E, E], [E, P, E], [E, E, E]]);
    assert!(Maze::from_parts(vec![t], 1, (0, 0), None).is_none());
    assert!(Maze::from_parts(vec![t], 1, (1, 1), Some((0, 0))).is_none());
    assert!(Maze::from_parts(vec![t, t], 1, (1, 1), None).is_none());
    assert!(Maze::from_parts(vec![t], 1, (3, 1), None).is_none());
    assert!(Maze::from_parts(vec![], 0, (0, 0), Some((0, 0))).is_none());
    assert!(Maze::from_parts(vec![], 0, (0, 0), None).is_some());
    assert!(Maze::from_parts(vec![t], 1, (1, 1), None).is_some());
}

#[test]
fn build_maze_places_player_and_gold() {
    let temps = create_templates();
    let m = build_maze(2, &vec![0, 1, 2, 3], &vec![0, 1, 2, 3], (1, 0), Some((0, 1)));
    assert_eq!(m.player(), (4, 1));
    assert_eq!(m.gold(), Some((1, 4)));
    assert_eq!(m.cell_kind(4, 1), P);
    assert_eq!(m.cell_kind(1, 4), G);
    let cross = temps[1].rotate(1);
    for y in 0..3 {
        for x in 0..3 {
            if (x, y) != (1, 1) {
                assert_eq!(m.cell_kind(3 + x, y), cross.get(x, y));
            }
            assert_eq!(m.cell_kind(x, y), temps[0].get(x, y));
        }
    }
    assert_eq!(m.get_tile(1, 1).unwrap().place, temps[3].place);
    assert_eq!(m.get_player_tile().get(1, 1), P);
}

#[test]
fn create_maze_spawns_in_distinct_tiles() {
    for size in [1u16, 2, 3, 5] {
        for _ in 0..20 {
            let m = create_maze(size);
            assert_eq!(m.size(), size as usize);
            let (px, py) = m.player();
            assert_eq!((px % 3, py % 3), (1, 1));
            assert!(px < 3 * size as usize && py < 3 * size as usize);
            assert_eq!(m.cell_kind(px, py), P);
            match m.gold() {
                Some((gx, gy)) => {
                    assert!(size > 1);
                    assert_eq!((gx % 3, gy % 3), (1, 1));
                    assert_ne!((gx / 3, gy / 3), (px / 3, py / 3));
                    assert_eq!(m.cell_kind(gx, gy), G);
                }
                None => assert_eq!(size, 1),
            }
        }
    }
}

#[test]
fn create_maze_draws_vary() {
    let firsts: Vec<(usize, usize)> = (0..40).map(|_| create_maze(6).player()).collect();
    assert!(firsts.iter().any(|p| *p != firsts[0]));
}

#[test]
fn maze_as_text() {
    let m = build_maze(2, &vec![3, 2, 3, 3], &vec![0, 0, 0, 0], (0, 0), Some((1, 1)));
    let text = m.to_text();
    let lines: Vec<&str> = text.lines().collect();
    assert_eq!(lines.len(), 6);
    assert_eq!(lines[0], "          #     # ");
    assert_eq!(lines[1], "    p     #     # ");
    assert_eq!(lines[2], "          #     # ");
    assert_eq!(lines[4], "             g    ");
    assert!(text.ends_with('\n'));
    assert_eq!(create_maze(0).to_text(), "");
}
