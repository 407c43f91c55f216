use tilemaze::grid_view::{Block, GridModel, GridVisualizer, TOO_SMALL};
use tilemaze::maze::{build_maze, create_maze, Maze};
use tilemaze::session::{command_of, handle_key, outcome_message, Command, BLOCKED, FOUND_GOLD, SAME_POSITION, WRONG_INPUT};
use tilemaze::tile::{Tile, Types};

fn open_maze(size: u16) -> Maze {
    let n = (size as usize) * (size as usize);
    build_maze(size, &vec![3; n], &vec![0; n], (0, 0), None)
}

#[test]
fn tiny_buffer_is_too_small() {
    for size in [1u16, 2, 4] {
        let vis = GridVisualizer { maze: create_maze(size), message: Some("hi".to_string()) };
        let f = vis.render(3, 1);
        assert_eq!(f.block_size, 0);
        assert!(f.rows.is_empty());
        assert_eq!(f.text_row, 0);
        assert_eq!(f.text.as_deref(), Some(TOO_SMALL));
    }
}

#[test]
fn zero_height_and_empty_maze_do_not_crash() {
    let vis = GridVisualizer { maze: open_maze(1), message: None };
    assert_eq!(vis.render(80, 0).block_size, 0);
    let vis = GridVisualizer { maze: create_maze(0), message: None };
    assert_eq!(vis.render(80, 40).block_size, 0);
}

#[test]
fn exact_fit_draws_every_cell() {
    let t = Tile::new([[Types::Wall, Types::Empty, Types::Empty], [Types::Empty, Types::Player, Types::Empty], [Types::Empty, Types::Empty, Types::Gold]]);
    let m = Maze::from_parts(vec![t], 1, (1, 1), Some((2, 2))).unwrap();
    let vis = GridVisualizer { maze: m, message: Some("ok".to_string()) };
    let f = vis.render(6, 4);
    assert_eq!(f.block_size, 1);
    assert_eq!(f.rows.len(), 3);
    assert_eq!(f.text_row, 3);
    assert_eq!(f.text.as_deref(), Some("ok"));
    for (i, row) in f.rows.iter().enumerate() {
        assert_eq!(row.len(), 6);
        for (j, px) in row.iter().enumerate() {
            let want = vis.maze.get_piece((j / 2) as u16, i as u16).get_style();
            assert_eq!(*px, want);
        }
    }
    assert_eq!(f.rows[0][0], Types::Wall.get_style());
    assert_eq!(f.rows[2][5], Types::Gold.get_style());
}

#[test]
fn scale_is_the_largest_that_fits() {
    let vis = GridVisualizer { maze: open_maze(2), message: None };
    // extent = min(40 / 2, 15 - 1) = 14; 14 / 6 = 2
    let f = vis.render(40, 15);
    assert_eq!(f.block_size, 2);
    assert_eq!(f.rows.len(), 12);
    assert_eq!(f.rows[0].len(), 24);
    assert_eq!(f.text_row, 12);
    assert_eq!(f.text, None);
    // extent = min(25 / 2, 100 - 1) = 12; 12 / 6 = 2
    assert_eq!(vis.render(25, 100).block_size, 2);
    // extent = min(11 / 2, 100) = 5 < 6
    assert_eq!(vis.render(11, 100).block_size, 0);
}

#[test]
fn grid_model_of_maze() {
    let m = open_maze(2);
    assert_eq!(m.get_size(), 2);
    assert_eq!(m.get_tile_size(), 3);
    assert_eq!(*m.get_piece(1, 1), Types::Player);
    assert_eq!(*m.get_piece(5, 5), Types::Empty);
}

#[test]
fn keys_map_to_commands() {
    assert_eq!(command_of('d'), Command::Move(0));
    assert_eq!(command_of('w'), Command::Move(1));
    assert_eq!(command_of('a'), Command::Move(2));
    assert_eq!(command_of('s'), Command::Move(3));
    assert_eq!(command_of('n'), Command::NewMaze);
    assert_eq!(command_of('q'), Command::Quit);
    assert_eq!(command_of('D'), Command::Unknown);
    assert_eq!(command_of('x'), Command::Unknown);
}

#[test]
fn move_results_map_to_messages() {
    assert_eq!(outcome_message(Ok(Types::Wall)).as_deref(), Some(BLOCKED));
    assert_eq!(outcome_message(Ok(Types::Player)).as_deref(), Some(SAME_POSITION));
    assert_eq!(outcome_message(Ok(Types::Gold)).as_deref(), Some(FOUND_GOLD));
    assert_eq!(outcome_message(Ok(Types::Empty)), None);
    assert_eq!(outcome_message(Err("boom")).as_deref(), Some("boom"));
    assert_eq!(BLOCKED, "Cannot move through walls");
    assert_eq!(FOUND_GOLD, "You have found the gold!");
}

#[test]
fn keys_drive_the_session() {
    let t = Tile::new([[Types::Empty, Types::Empty, Types::Empty], [Types::Wall, Types::Player, Types::Gold], [Types::Empty, Types::Empty, Types::Empty]]);
    let m = Maze::from_parts(vec![t], 1, (1, 1), Some((1, 2))).unwrap();
    let mut vis = GridVisualizer { maze: m, message: None };
    assert!(handle_key(&mut vis, 3, 'z'));
    assert_eq!(vis.message.as_deref(), Some(WRONG_INPUT));
    assert_eq!(WRONG_INPUT, "Wrong input");
    assert!(handle_key(&mut vis, 3, 'w'));
    assert_eq!(vis.message.as_deref(), Some(BLOCKED));
    assert_eq!(vis.maze.player(), (1, 1));
    assert!(handle_key(&mut vis, 3, 's'));
    assert_eq!(vis.message.as_deref(), Some(FOUND_GOLD));
    assert_eq!(vis.maze.gold(), None);
    vis.message = None;
    assert!(handle_key(&mut vis, 3, 'd'));
    assert_eq!(vis.message, None);
    assert_eq!(vis.maze.player(), (2, 2));
    assert!(!handle_key(&mut vis, 3, 'q'));
    assert_eq!(vis.maze.player(), (2, 2));
    assert!(handle_key(&mut vis, 3, 'n'));
    assert_eq!(vis.maze.size(), 3);
}
