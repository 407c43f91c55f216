use vstd::prelude::*;
use crate::grid_view::GridVisualizer;
use crate::maze::{create_maze, move_done, Maze};
use crate::tile::Types;

verus! {

/// Status shown for a key that means nothing.
pub const WRONG_INPUT: &'static str = "Wrong input";

/// Status shown when a wall blocks the move.
pub const BLOCKED: &'static str = "Cannot move through walls";

/// Status shown when a move would stay on the player's own cell.
pub const SAME_POSITION: &'static str = "Moving into same position should not be possible";

/// Status shown when the player reaches the gold.
pub const FOUND_GOLD: &'static str = "You have found the gold!";

/// What a key press asks for.
#[derive(Copy, Clone, Debug, PartialEq, Eq, Structural)]
pub enum Command {
    /// A move: 0 east, 1 north, 2 west, 3 south.
    Move(u8),
    NewMaze,
    Quit,
    Unknown,
}

/// `d`, `w`, `a`, `s` move east, north, west, south; `n` asks for a new
/// maze; `q` quits; every other key is unknown.
pub open spec fn command_spec(c: char) -> Command {
    if c == 'd' {
        Command::Move(0)
    } else if c == 'w' {
        Command::Move(1)
    } else if c == 'a' {
        Command::Move(2)
    } else if c == 's' {
        Command::Move(3)
    } else if c == 'n' {
        Command::NewMaze
    } else if c == 'q' {
        Command::Quit
    } else {
        Command::Unknown
    }
}

/// The command a key press stands for.
pub fn command_of(c: char) -> (r: Command)
    ensures
        r == command_spec(c),
{
    match c {
        'd' => Command::Move(0),
        'w' => Command::Move(1),
        'a' => Command::Move(2),
        's' => Command::Move(3),
        'n' => Command::NewMaze,
        'q' => Command::Quit,
        _ => Command::Unknown,
    }
}

/// The status text that reports the result of a move, if any.
pub open spec fn outcome_text(r: Result<Types, &'static str>) -> Option<&'static str> {
    match r {
        Ok(Types::Wall) => Some(BLOCKED),
        Ok(Types::Player) => Some(SAME_POSITION),
        Ok(Types::Gold) => Some(FOUND_GOLD),
        Ok(Types::Empty) => None,
        Err(e) => Some(e),
    }
}

/// `m` holds the text `t`, or nothing when `t` is `None`.
pub open spec fn holds_text(m: Option<String>, t: Option<&'static str>) -> bool {
    match t {
        Some(t) => m matches Some(s) && s@ == t@,
        None => m is None,
    }
}

/// The status message for the result of a move.
pub fn outcome_message(r: Result<Types, &'static str>) -> (m: Option<String>)
    ensures
        holds_text(m, outcome_text(r)),
{
    match r {
        Ok(Types::Wall) => Some(BLOCKED.to_owned()),
        Ok(Types::Player) => Some(SAME_POSITION.to_owned()),
        Ok(Types::Gold) => Some(FOUND_GOLD.to_owned()),
        Ok(Types::Empty) => None,
        Err(e) => Some(e.to_owned()),
    }
}

/// Carries out the key `c`: a move updates the maze and sets the status from
/// its result; `n` replaces the maze with a fresh one of side `size`; an
/// unknown key sets the status to the wrong-input notice. Returns `false`
/// exactly when `c` asks to quit, and then changes nothing.
pub fn handle_key(vis: &mut GridVisualizer<Maze>, size: u16, c: char) -> (go_on: bool)
    requires
        old(vis).maze.wf(),
    ensures
        final(vis).maze.wf(),
        go_on == (c != 'q'),
        match command_spec(c) {
            Command::Move(d) => exists|r: Result<Types, &'static str>|
                move_done(old(vis).maze, final(vis).maze, d, r) && holds_text(
                    final(vis).message,
                    outcome_text(r),
                ),
            Command::NewMaze => final(vis).maze.grid_size() == size && final(vis).message == old(
                vis,
            ).message,
            Command::Quit => *final(vis) == *old(vis),
            Command::Unknown => final(vis).maze == old(vis).maze && holds_text(
                final(vis).message,
                Some(WRONG_INPUT),
            ),
        },
{
    match command_of(c) {
        Command::Move(d) => {
            let r = vis.maze.move_player(d);
            vis.message = outcome_message(r);
            true
        },
        Command::NewMaze => {
            vis.maze = create_maze(size);
            true
        },
        Command::Quit => false,
        Command::Unknown => {
            vis.message = Some(WRONG_INPUT.to_owned());
            true
        },
    }
}

} // verus!
