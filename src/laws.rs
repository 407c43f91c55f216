use vstd::prelude::*;
use vstd::arithmetic::div_mod::lemma_fundamental_div_mod_converse;
use crate::maze::{move_done, step_from, Maze};
use crate::tile::Types;

verus! {

/// The direction that undoes direction `d`.
pub open spec fn opposite(d: u8) -> u8 {
    ((d + 2) % 4) as u8
}

/// One step on a torus of side `n` never leaves it.
pub proof fn step_stays_on_torus(p: (int, int), d: u8, n: int)
    requires
        n > 0,
        0 <= p.0 < n,
        0 <= p.1 < n,
    ensures
        0 <= step_from(p, d, n).0 < n,
        0 <= step_from(p, d, n).1 < n,
{
}

/// A step followed by a step the opposite way comes back.
pub proof fn step_back(p: (int, int), d: u8, n: int)
    requires
        n > 0,
        0 <= p.0 < n,
        0 <= p.1 < n,
        d < 4,
    ensures
        step_from(step_from(p, d, n), opposite(d), n) == p,
{
    let (x, y) = p;
    if x + 1 == n {
        lemma_fundamental_div_mod_converse(x + 1, n, 1, 0);
    } else {
        lemma_fundamental_div_mod_converse(x + 1, n, 0, x + 1);
    }
    if y + 1 == n {
        lemma_fundamental_div_mod_converse(y + 1, n, 1, 0);
    } else {
        lemma_fundamental_div_mod_converse(y + 1, n, 0, y + 1);
    }
    if x == 0 {
        lemma_fundamental_div_mod_converse(x - 1 + n, n, 0, n - 1);
        lemma_fundamental_div_mod_converse(n - 1 + 1, n, 1, 0);
    } else {
        lemma_fundamental_div_mod_converse(x - 1 + n, n, 1, x - 1);
        lemma_fundamental_div_mod_converse(x - 1 + 1, n, 0, x);
    }
    if y == 0 {
        lemma_fundamental_div_mod_converse(y - 1 + n, n, 0, n - 1);
        lemma_fundamental_div_mod_converse(n - 1 + 1, n, 1, 0);
    } else {
        lemma_fundamental_div_mod_converse(y - 1 + n, n, 1, y - 1);
        lemma_fundamental_div_mod_converse(y - 1 + 1, n, 0, y);
    }
    let q = step_from(p, d, n);
    if x + 1 == n {
        lemma_fundamental_div_mod_converse(0 - 1 + n, n, 0, n - 1);
    } else {
        lemma_fundamental_div_mod_converse(x + 1 - 1 + n, n, 1, x);
    }
    if y + 1 == n {
        lemma_fundamental_div_mod_converse(0 - 1 + n, n, 0, n - 1);
    } else {
        lemma_fundamental_div_mod_converse(y + 1 - 1 + n, n, 1, y);
    }
}

/// Wherever the player stands and whichever direction is asked for, the
/// destination of a move lies inside the maze.
pub proof fn move_stays_on_torus(m: Maze, d: u8)
    requires
        m.wf(),
        m.grid_size() > 0,
    ensures
        m.in_grid(m.target(d).0, m.target(d).1),
{
    step_stays_on_torus(m.player_pos(), d, m.side());
}

/// A well-formed maze has exactly one `Player` cell, the player's; since
/// `move_player` keeps the maze well-formed, this holds after any sequence
/// of moves.
pub proof fn one_player(m: Maze)
    requires
        m.wf(),
        m.grid_size() > 0,
    ensures
        m.in_grid(m.player_pos().0, m.player_pos().1),
        m.cell(m.player_pos().0, m.player_pos().1) == Types::Player,
        forall|x: int, y: int|
            m.in_grid(x, y) && #[trigger] m.cell(x, y) == Types::Player ==> (x, y) == m.player_pos(),
{
}

/// Once the gold has been collected no cell holds gold, so no later move
/// can report `Gold` again.
pub proof fn gold_stays_collected(m: Maze)
    requires
        m.wf(),
        m.gold_pos() is None,
    ensures
        forall|x: int, y: int| m.in_grid(x, y) ==> #[trigger] m.cell(x, y) != Types::Gold,
{
}

/// After a move from `before` in direction `d` that took the player onto an
/// `Empty` or `Gold` cell, the opposite move leads back onto the cell the
/// player left, which is now `Empty`.
pub proof fn vacated_cell_is_empty(before: Maze, after: Maze, d: u8)
    requires
        before.wf(),
        before.grid_size() > 0,
        d < 4,
        before.cell(before.target(d).0, before.target(d).1) == Types::Empty || before.cell(
            before.target(d).0,
            before.target(d).1,
        ) == Types::Gold,
        after.grid_size() == before.grid_size(),
        after.player_pos() == before.target(d),
        forall|x: int, y: int|
            before.in_grid(x, y) ==> #[trigger] after.cell(x, y) == before.moved_cell(
                before.player_pos(),
                before.target(d),
                x,
                y,
            ),
    ensures
        after.target(opposite(d)) == before.player_pos(),
        after.cell(before.player_pos().0, before.player_pos().1) == Types::Empty,
{
    step_back(before.player_pos(), d, before.side());
    step_stays_on_torus(before.player_pos(), d, before.side());
    let p = before.player_pos();
    let t = before.target(d);
    assert(before.cell(p.0, p.1) == Types::Player);
    assert(t != p);
    assert(after.cell(p.0, p.1) == before.moved_cell(p, t, p.0, p.1));
}

/// A move toward a wall is refused: it reports `Wall` and changes neither
/// the player's position nor any cell.
pub proof fn wall_refuses_move(before: Maze, after: Maze, d: u8, r: Result<Types, &'static str>)
    requires
        before.wf(),
        before.grid_size() > 0,
        before.cell(before.target(d).0, before.target(d).1) == Types::Wall,
        move_done(before, after, d, r),
    ensures
        r == Ok::<Types, &'static str>(Types::Wall),
        after.player_pos() == before.player_pos(),
        forall|x: int, y: int| before.in_grid(x, y) ==> #[trigger] after.cell(x, y) == before.cell(x, y),
{
}

} // verus!
