use rand::Rng;
use vstd::prelude::*;
use vstd::string::StringExecFns;
use vstd::arithmetic::div_mod::lemma_fundamental_div_mod_converse;
use crate::grid_view::GridModel;
use crate::tile::{create_templates, is_plain, lemma_rotated_plain, rotated, templates, Tile, Types};

verus! {

/// Message returned when a move looks up a tile that the maze does not have.
pub const OUT_OF_BOUNDS: &'static str = "Out of bounds movement!";

/// Relies on rand's `Rng::gen_range` on the thread-local generator: a value
/// in `[0, n)`. It panics when `n` is zero.
#[verifier::external_body]
fn random_below(n: usize) -> (r: usize)
    requires
        n > 0,
    ensures
        r < n,
{
    rand::thread_rng().gen_range(0, n)
}

/// The global coordinates of the center cell of tile `(tx, ty)`.
pub open spec fn center(t: (int, int)) -> (int, int) {
    (3 * t.0 + 1, 3 * t.1 + 1)
}

/// The cell at `(x, y)` of a maze laid out from `shapes` and `turns` (one
/// template index and one quarter-turn count per tile slot, row-major), with
/// the player and the gold placed at the centers of their tiles.
pub open spec fn laid_out_cell(
    shapes: Seq<usize>,
    turns: Seq<u8>,
    size: int,
    player_tile: (int, int),
    gold_tile: Option<(int, int)>,
    x: int,
    y: int,
) -> Types {
    let slot = x / 3 + (y / 3) * size;
    if (x, y) == center(player_tile) {
        Types::Player
    } else if gold_tile is Some && (x, y) == center(gold_tile->0) {
        Types::Gold
    } else {
        rotated(templates()[shapes[slot] as int], turns[slot] as nat)[x % 3][y % 3]
    }
}

/// The cell at global coordinates `(x, y)` of a row-major list of tiles with
/// `size` tiles per side.
pub open spec fn grid_cell(tiles: Seq<Tile>, size: int, x: int, y: int) -> Types {
    tiles[x / 3 + (y / 3) * size]@[x % 3][y % 3]
}

/// Cell `(x, y)` holds `Player` exactly when it is `player`, and `Gold`
/// exactly when it is `gold`.
pub open spec fn marks_ok(
    tiles: Seq<Tile>,
    size: int,
    player: (int, int),
    gold: Option<(int, int)>,
    x: int,
    y: int,
) -> bool {
    &&& grid_cell(tiles, size, x, y) == Types::Player <==> (x, y) == player
    &&& grid_cell(tiles, size, x, y) == Types::Gold <==> gold == Some((x, y))
}

/// `tiles`, `size`, `player` and `gold` make a well-formed maze: one tile
/// per slot; the player on the only `Player` cell; the gold, if any, on the
/// only `Gold` cell; and no gold in an empty maze.
pub open spec fn layout_ok(
    tiles: Seq<Tile>,
    size: int,
    player: (int, int),
    gold: Option<(int, int)>,
) -> bool {
    &&& tiles.len() == size * size
    &&& size > 0 ==> {
        &&& 0 <= player.0 < 3 * size && 0 <= player.1 < 3 * size
        &&& gold matches Some(g) ==> 0 <= g.0 < 3 * size && 0 <= g.1 < 3 * size
        &&& forall|x: int, y: int|
            0 <= x < 3 * size && 0 <= y < 3 * size ==> #[trigger] marks_ok(
                tiles,
                size,
                player,
                gold,
                x,
                y,
            )
    }
    &&& size == 0 ==> gold is None
}

/// `after` and `r` are what a move in direction `d` makes of `before`: an
/// empty maze reports that the move is out of bounds and stays as it is;
/// otherwise the kind of the destination cell is reported, and the player
/// moves there only when it is `Empty` or `Gold`, leaving `Empty` behind and
/// collecting the gold.
pub open spec fn move_done(before: Maze, after: Maze, d: u8, r: Result<Types, &'static str>) -> bool {
    &&& after.grid_size() == before.grid_size()
    &&& before.grid_size() == 0 ==> r == Err::<Types, &'static str>(OUT_OF_BOUNDS) && after == before
    &&& before.grid_size() > 0 ==> {
        let t = before.target(d);
        let k = before.cell(t.0, t.1);
        &&& r == Ok::<Types, &'static str>(k)
        &&& (k == Types::Empty || k == Types::Gold) ==> {
            &&& after.player_pos() == t
            &&& after.gold_pos() == if k == Types::Gold {
                None
            } else {
                before.gold_pos()
            }
            &&& forall|x: int, y: int|
                before.in_grid(x, y) ==> #[trigger] after.cell(x, y) == before.moved_cell(
                    before.player_pos(),
                    t,
                    x,
                    y,
                )
        }
        &&& (k == Types::Wall || k == Types::Player) ==> after == before
    }
}

/// The first `n` cells of row `y` of `m` as text.
pub open spec fn row_text(m: Maze, y: int, n: int) -> Seq<char>
    decreases n,
{
    if n <= 0 {
        Seq::empty()
    } else {
        row_text(m, y, n - 1) + m.cell(n - 1, y).text_spec()@
    }
}

/// The first `n` rows of `m` as text, each ended by a newline.
pub open spec fn maze_text(m: Maze, n: int) -> Seq<char>
    decreases n,
{
    if n <= 0 {
        Seq::empty()
    } else {
        maze_text(m, n - 1) + row_text(m, n - 1, m.side()) + "\n"@
    }
}

/// A toroidal grid of `size * size` tiles with one player and at most one
/// piece of gold, all addressed by global cell coordinates.
pub struct Maze {
    tiles: Vec<Tile>,
    size: usize,
    player: (usize, usize),
    gold: Option<(usize, usize)>,
}

/// The destination of one step from `p` in direction `d` on a torus of side
/// `n`: 0 east, 1 north, 2 west, 3 south; any other value stays put.
pub open spec fn step_from(p: (int, int), d: u8, n: int) -> (int, int) {
    if d == 0 {
        ((p.0 + 1) % n, p.1)
    } else if d == 1 {
        (p.0, (p.1 - 1 + n) % n)
    } else if d == 2 {
        ((p.0 - 1 + n) % n, p.1)
    } else if d == 3 {
        (p.0, (p.1 + 1) % n)
    } else {
        p
    }
}

/// Distinct global cells have distinct tile slots or distinct offsets.
proof fn lemma_address_injective(s: int, x: int, y: int, x2: int, y2: int)
    requires
        0 <= x < 3 * s,
        0 <= y < 3 * s,
        0 <= x2 < 3 * s,
        0 <= y2 < 3 * s,
        x / 3 + (y / 3) * s == x2 / 3 + (y2 / 3) * s,
        x % 3 == x2 % 3,
        y % 3 == y2 % 3,
    ensures
        x == x2,
        y == y2,
{
    let i = x / 3 + (y / 3) * s;
    lemma_fundamental_div_mod_converse(i, s, y / 3, x / 3);
    lemma_fundamental_div_mod_converse(i, s, y2 / 3, x2 / 3);
}

/// The number of tiles of a maze whose side fits a `u16` fits a `usize`.
proof fn lemma_square_fits(s: int)
    requires
        0 <= s <= u16::MAX,
    ensures
        s * s <= usize::MAX,
{
    assert(s * s <= 65535 * 65535) by (nonlinear_arith)
        requires
            0 <= s <= 65535,
    ;
}

/// The tile slot of an in-grid cell is in range.
proof fn lemma_index_in_range(s: int, x: int, y: int)
    requires
        0 <= x < 3 * s,
        0 <= y < 3 * s,
    ensures
        0 <= x / 3 + (y / 3) * s < s * s,
{
    let a = x / 3;
    let b = y / 3;
    assert(0 <= a < s && 0 <= b < s);
    assert(0 <= a + b * s < s * s) by (nonlinear_arith)
        requires
            0 <= a < s,
            0 <= b < s,
    ;
}

impl Maze {
    /// Tiles per side.
    pub closed spec fn grid_size(&self) -> nat {
        self.size as nat
    }

    /// Global coordinates of the player.
    pub closed spec fn player_pos(&self) -> (int, int) {
        (self.player.0 as int, self.player.1 as int)
    }

    /// Global coordinates of the gold, while it has not been collected.
    pub closed spec fn gold_pos(&self) -> Option<(int, int)> {
        match self.gold {
            Some(g) => Some((g.0 as int, g.1 as int)),
            None => None,
        }
    }

    /// The kind of the cell at global coordinates `(x, y)`.
    pub closed spec fn cell(&self, x: int, y: int) -> Types {
        grid_cell(self.tiles@, self.size as int, x, y)
    }

    /// The tile at slot `(tx, ty)`.
    pub closed spec fn tile_at(&self, tx: int, ty: int) -> Tile {
        self.tiles@[tx + ty * self.size]
    }

    /// The tile list has one tile per slot, and the side fits a `u16`.
    pub closed spec fn storage_ok(&self) -> bool {
        &&& self.size <= u16::MAX
        &&& self.tiles@.len() == self.size * self.size
        &&& self.size * self.size <= usize::MAX
    }

    /// Cells per side of the whole maze.
    pub open spec fn side(&self) -> int {
        (self.grid_size() * 3) as int
    }

    pub open spec fn in_grid(&self, x: int, y: int) -> bool {
        0 <= x < self.side() && 0 <= y < self.side()
    }

    /// Where one step in direction `d` leads the player.
    pub open spec fn target(&self, d: u8) -> (int, int) {
        step_from(self.player_pos(), d, self.side())
    }

    /// Exactly the player's cell holds `Player`; exactly the gold's cell,
    /// if any, holds `Gold`.
    pub open spec fn wf(&self) -> bool {
        &&& self.storage_ok()
        &&& self.grid_size() > 0 ==> {
            &&& self.in_grid(self.player_pos().0, self.player_pos().1)
            &&& forall|x: int, y: int|
                self.in_grid(x, y) ==> (#[trigger] self.cell(x, y) == Types::Player <==> (x, y)
                    == self.player_pos())
            &&& forall|x: int, y: int|
                self.in_grid(x, y) ==> (#[trigger] self.cell(x, y) == Types::Gold <==> self.gold_pos()
                    == Some((x, y)))
        }
        &&& self.grid_size() == 0 ==> self.gold_pos() is None
        &&& self.gold_pos() matches Some(g) ==> self.in_grid(g.0, g.1)
    }

    /// The cells after the player went from `from` to `to`.
    pub open spec fn moved_cell(&self, from: (int, int), to: (int, int), x: int, y: int) -> Types {
        if (x, y) == to {
            Types::Player
        } else if (x, y) == from {
            Types::Empty
        } else {
            self.cell(x, y)
        }
    }

    /// Tiles per side.
    pub fn size(&self) -> (r: usize)
        ensures
            r == self.grid_size(),
    {
        self.size
    }

    /// Global coordinates of the player.
    pub fn player(&self) -> (r: (usize, usize))
        ensures
            (r.0 as int, r.1 as int) == self.player_pos(),
    {
        self.player
    }

    /// Global coordinates of the gold, or `None` once it has been collected.
    pub fn gold(&self) -> (r: Option<(usize, usize)>)
        ensures
            r matches Some(g) ==> self.gold_pos() == Some((g.0 as int, g.1 as int)),
            r is None ==> self.gold_pos() is None,
    {
        self.gold
    }

    /// The kind of the cell at global coordinates `(x, y)`.
    pub fn cell_kind(&self, x: usize, y: usize) -> (r: Types)
        requires
            self.wf(),
            self.in_grid(x as int, y as int),
        ensures
            r == self.cell(x as int, y as int),
    {
        self.cell_at(x, y)
    }

    /// The tile at slot `(x, y)`, or `None` when the slot index
    /// `x + y * size` is past the last tile.
    pub fn get_tile(&self, x: u16, y: u16) -> (r: Option<&Tile>)
        requires
            self.wf(),
        ensures
            match r {
                Some(t) => x + y * self.grid_size() < self.grid_size() * self.grid_size() && *t
                    == self.tile_at(x as int, y as int),
                None => x + y * self.grid_size() >= self.grid_size() * self.grid_size(),
            },
    {
        let (x, y) = (x as usize, y as usize);
        proof {
            assert(x + y * self.size <= 65535 + 65535 * 65535) by (nonlinear_arith)
                requires
                    x <= 65535,
                    y <= 65535,
                    self.size <= 65535,
            ;
        }
        let i = x + y * self.size;
        if i < self.tiles.len() {
            Some(&self.tiles[i])
        } else {
            None
        }
    }

    /// The tile the player stands in.
    pub fn get_player_tile(&self) -> (r: &Tile)
        requires
            self.wf(),
            self.grid_size() > 0,
        ensures
            *r == self.tile_at(self.player_pos().0 / 3, self.player_pos().1 / 3),
    {
        proof {
            lemma_index_in_range(self.size as int, self.player.0 as int, self.player.1 as int);
        }
        &self.tiles[self.player.0 / 3 + (self.player.1 / 3) * self.size]
    }

    /// A maze made of the given parts, or `None` when they do not make a
    /// well-formed one.
    pub fn from_parts(
        tiles: Vec<Tile>,
        size: u16,
        player: (usize, usize),
        gold: Option<(usize, usize)>,
    ) -> (r: Option<Maze>)
        ensures
            r is Some <==> layout_ok(
                tiles@,
                size as int,
                (player.0 as int, player.1 as int),
                match gold {
                    Some(g) => Some((g.0 as int, g.1 as int)),
                    None => None,
                },
            ),
            r matches Some(m) ==> {
                &&& m.wf()
                &&& m.grid_size() == size
                &&& m.player_pos() == (player.0 as int, player.1 as int)
                &&& m.gold_pos() == match gold {
                    Some(g) => Some((g.0 as int, g.1 as int)),
                    None => None,
                }
                &&& forall|x: int, y: int|
                    m.in_grid(x, y) ==> #[trigger] m.cell(x, y) == grid_cell(tiles@, size as int, x, y)
            },
    {
        let ghost pl = (player.0 as int, player.1 as int);
        let ghost gl: Option<(int, int)> = match gold {
            Some(g) => Some((g.0 as int, g.1 as int)),
            None => None,
        };
        let s = size as usize;
        proof {
            lemma_square_fits(s as int);
        }
        if tiles.len() != s * s {
            return None;
        }
        if s == 0 {
            if gold.is_some() {
                return None;
            }
            let m = Maze { tiles, size: 0, player, gold };
            return Some(m);
        }
        let n = 3 * s;
        if player.0 >= n || player.1 >= n {
            return None;
        }
        if let Some(g) = gold {
            if g.0 >= n || g.1 >= n {
                return None;
            }
        }
        let mut y: usize = 0;
        while y < n
            invariant
                n == 3 * s,
                s == size,
                pl == (player.0 as int, player.1 as int),
                gl == match gold {
                    Some(g) => Some((g.0 as int, g.1 as int)),
                    None => None::<(int, int)>,
                },
                s > 0,
                s <= u16::MAX,
                s * s <= usize::MAX,
                tiles@.len() == s * s,
                y <= n,
                forall|x2: int, y2: int|
                    0 <= x2 < n && 0 <= y2 < y ==> #[trigger] marks_ok(tiles@, s as int, pl, gl, x2, y2),
            decreases n - y,
        {
            let mut x: usize = 0;
            while x < n
                invariant
                    n == 3 * s,
                    s == size,
                    pl == (player.0 as int, player.1 as int),
                    gl == match gold {
                    Some(g) => Some((g.0 as int, g.1 as int)),
                    None => None::<(int, int)>,
                },
                    s > 0,
                    s <= u16::MAX,
                    s * s <= usize::MAX,
                    tiles@.len() == s * s,
                    y < n,
                    x <= n,
                    forall|x2: int, y2: int|
                        0 <= x2 < n && 0 <= y2 < y ==> #[trigger] marks_ok(tiles@, s as int, pl, gl, x2, y2),
                    forall|x2: int| 0 <= x2 < x ==> #[trigger] marks_ok(tiles@, s as int, pl, gl, x2, y as int),
                decreases n - x,
            {
                proof {
                    lemma_index_in_range(s as int, x as int, y as int);
                }
                let c = tiles[x / 3 + (y / 3) * s].get(x % 3, y % 3);
                let is_player = x == player.0 && y == player.1;
                let is_gold = match gold {
                    Some(g) => x == g.0 && y == g.1,
                    None => false,
                };
                if (c == Types::Player) != is_player || (c == Types::Gold) != is_gold {
                    assert(!marks_ok(tiles@, s as int, pl, gl, x as int, y as int));
                    assert(!layout_ok(tiles@, size as int, pl, gl)) by {
                        if layout_ok(tiles@, size as int, pl, gl) {
                            assert(marks_ok(tiles@, size as int, pl, gl, x as int, y as int));
                        }
                    }
                    return None;
                }
                x = x + 1;
            }
            y = y + 1;
        }
        let m = Maze { tiles, size: s, player, gold };
        assert forall|x: int, y: int| m.in_grid(x, y) implies (#[trigger] m.cell(x, y) == Types::Player
            <==> (x, y) == m.player_pos()) && (m.cell(x, y) == Types::Gold <==> m.gold_pos() == Some(
            (x, y),
        )) by {
            assert(marks_ok(m.tiles@, s as int, pl, gl, x, y));
        }
        Some(m)
    }

    /// The whole maze as text: one line per row of cells, each cell as three
    /// characters.
    pub fn to_text(&self) -> (r: String)
        requires
            self.wf(),
        ensures
            r@ == maze_text(*self, self.side()),
    {
        let n = self.size * 3;
        let mut out = String::new();
        let mut y: usize = 0;
        while y < n
            invariant
                self.wf(),
                n == self.side(),
                y <= n,
                out@ == maze_text(*self, y as int),
            decreases n - y,
        {
            let mut x: usize = 0;
            let ghost start = out@;
            while x < n
                invariant
                    self.wf(),
                    n == self.side(),
                    x <= n,
                    y < n,
                    start == maze_text(*self, y as int),
                    out@ == start + row_text(*self, y as int, x as int),
                decreases n - x,
            {
                out.append(self.cell_at(x, y).text());
                proof {
                    assert(start + row_text(*self, y as int, x + 1) =~= start + row_text(
                        *self,
                        y as int,
                        x as int,
                    ) + self.cell(x as int, y as int).text_spec()@);
                }
                x = x + 1;
            }
            out.append("\n");
            proof {
                assert(maze_text(*self, y + 1) =~= start + row_text(*self, y as int, n as int) + "\n"@);
            }
            y = y + 1;
        }
        out
    }

    /// Reads the cell at global coordinates `(x, y)`.
    fn cell_at(&self, x: usize, y: usize) -> (r: Types)
        requires
            self.storage_ok(),
            self.in_grid(x as int, y as int),
        ensures
            r == self.cell(x as int, y as int),
    {
        proof {
            lemma_index_in_range(self.size as int, x as int, y as int);
        }
        self.tiles[x / 3 + (y / 3) * self.size].get(x % 3, y % 3)
    }

    /// Overwrites the cell at global coordinates `(x, y)`.
    fn set_cell(&mut self, x: usize, y: usize, v: Types)
        requires
            old(self).storage_ok(),
            old(self).in_grid(x as int, y as int),
        ensures
            final(self).storage_ok(),
            final(self).grid_size() == old(self).grid_size(),
            final(self).player_pos() == old(self).player_pos(),
            final(self).gold_pos() == old(self).gold_pos(),
            forall|x2: int, y2: int|
                old(self).in_grid(x2, y2) ==> #[trigger] final(self).cell(x2, y2) == if (x2, y2) == (
                x as int,
                y as int,
            ) {
                v
            } else {
                old(self).cell(x2, y2)
            },
    {
        proof {
            lemma_index_in_range(self.size as int, x as int, y as int);
        }
        let i = x / 3 + (y / 3) * self.size;
        let mut t = self.tiles[i];
        t.set(x % 3, y % 3, v);
        self.tiles[i] = t;
        proof {
            let s = self.size as int;
            assert forall|x2: int, y2: int| old(self).in_grid(x2, y2) implies #[trigger] self.cell(
                x2,
                y2,
            ) == if (x2, y2) == (x as int, y as int) {
                v
            } else {
                old(self).cell(x2, y2)
            } by {
                lemma_index_in_range(s, x2, y2);
                if x2 / 3 + (y2 / 3) * s == i && x2 % 3 == x % 3 && y2 % 3 == y % 3 {
                    lemma_address_injective(s, x as int, y as int, x2, y2);
                }
            }
        }
    }

    /// The global coordinates one step from the player in direction `dir_in`.
    fn next_position(&self, dir_in: u8) -> (r: (usize, usize))
        requires
            self.storage_ok(),
            self.grid_size() > 0,
            self.in_grid(self.player_pos().0, self.player_pos().1),
        ensures
            (r.0 as int, r.1 as int) == self.target(dir_in),
            self.in_grid(r.0 as int, r.1 as int),
    {
        let n = self.size * 3;
        let (px, py) = self.player;
        proof {
            let ni = n as int;
            if px + 1 == n {
                lemma_fundamental_div_mod_converse(px + 1, ni, 1, 0);
            } else {
                lemma_fundamental_div_mod_converse(px + 1, ni, 0, px + 1);
            }
            if py + 1 == n {
                lemma_fundamental_div_mod_converse(py + 1, ni, 1, 0);
            } else {
                lemma_fundamental_div_mod_converse(py + 1, ni, 0, py + 1);
            }
            if px == 0 {
                lemma_fundamental_div_mod_converse(px - 1 + ni, ni, 0, ni - 1);
            } else {
                lemma_fundamental_div_mod_converse(px - 1 + ni, ni, 1, px - 1);
            }
            if py == 0 {
                lemma_fundamental_div_mod_converse(py - 1 + ni, ni, 0, ni - 1);
            } else {
                lemma_fundamental_div_mod_converse(py - 1 + ni, ni, 1, py - 1);
            }
        }
        if dir_in == 0 {
            (if px + 1 == n { 0 } else { px + 1 }, py)
        } else if dir_in == 1 {
            (px, if py == 0 { n - 1 } else { py - 1 })
        } else if dir_in == 2 {
            (if px == 0 { n - 1 } else { px - 1 }, py)
        } else if dir_in == 3 {
            (px, if py + 1 == n { 0 } else { py + 1 })
        } else {
            (px, py)
        }
    }

    /// Puts the player on the free cell `(nx, ny)` and frees the old one.
    fn relocate(&mut self, nx: usize, ny: usize)
        requires
            old(self).wf(),
            old(self).grid_size() > 0,
            old(self).in_grid(nx as int, ny as int),
            old(self).cell(nx as int, ny as int) == Types::Empty || old(self).cell(nx as int, ny as int)
                == Types::Gold,
        ensures
            final(self).wf(),
            final(self).grid_size() == old(self).grid_size(),
            final(self).player_pos() == (nx as int, ny as int),
            final(self).gold_pos() == if old(self).cell(nx as int, ny as int) == Types::Gold {
                None
            } else {
                old(self).gold_pos()
            },
            forall|x: int, y: int|
                old(self).in_grid(x, y) ==> #[trigger] final(self).cell(x, y) == old(self).moved_cell(
                    old(self).player_pos(),
                    (nx as int, ny as int),
                    x,
                    y,
                ),
    {
        let ghost before = *self;
        let (px, py) = self.player;
        let k = self.cell_at(nx, ny);
        assert(before.cell(px as int, py as int) == Types::Player);
        assert((nx, ny) != (px, py));
        self.set_cell(nx, ny, Types::Player);
        let ghost mid = *self;
        self.set_cell(px, py, Types::Empty);
        let ghost last = *self;
        self.player = (nx, ny);
        if k == Types::Gold {
            self.gold = None;
        }
        assert forall|x: int, y: int| before.in_grid(x, y) implies #[trigger] self.cell(x, y)
            == before.moved_cell(before.player_pos(), (nx as int, ny as int), x, y) by {
            assert(self.cell(x, y) == last.cell(x, y));
            assert(last.cell(x, y) == if (x, y) == (px as int, py as int) {
                Types::Empty
            } else {
                mid.cell(x, y)
            });
            assert(mid.cell(x, y) == if (x, y) == (nx as int, ny as int) {
                Types::Player
            } else {
                before.cell(x, y)
            });
        }
    }

    /// Moves the player one cell in direction `dir_in` (0 east, 1 north,
    /// 2 west, 3 south), wrapping around the edges. Returns the kind of the
    /// destination cell; the move happens only onto `Empty` or `Gold`, and
    /// collecting the gold removes it.
    pub fn move_player(&mut self, dir_in: u8) -> (r: Result<Types, &'static str>)
        requires
            old(self).wf(),
        ensures
            final(self).wf(),
            move_done(*old(self), *final(self), dir_in, r),
    {
        if self.size == 0 {
            return Err(OUT_OF_BOUNDS);
        }
        let (nx, ny) = self.next_position(dir_in);
        let k = self.cell_at(nx, ny);
        match k {
            Types::Empty | Types::Gold => {
                self.relocate(nx, ny);
                Ok(k)
            },
            Types::Player | Types::Wall => Ok(k),
        }
    }
}

/// Lays out a maze of `size * size` tiles: slot `i` (row-major) holds
/// template `shapes[i]` turned `turns[i]` quarters; the player starts at the
/// center of `player_tile` and the gold, if any, at the center of
/// `gold_tile`, overwriting what the template had there.
pub fn build_maze(
    size: u16,
    shapes: &Vec<usize>,
    turns: &Vec<u8>,
    player_tile: (usize, usize),
    gold_tile: Option<(usize, usize)>,
) -> (r: Maze)
    requires
        size > 0,
        shapes@.len() == size * size,
        turns@.len() == size * size,
        forall|i: int| 0 <= i < shapes@.len() ==> #[trigger] shapes@[i] < 4,
        player_tile.0 < size,
        player_tile.1 < size,
        gold_tile matches Some(g) ==> g.0 < size && g.1 < size && g != player_tile,
    ensures
        r.wf(),
        r.grid_size() == size,
        r.player_pos() == center((player_tile.0 as int, player_tile.1 as int)),
        r.gold_pos() == match gold_tile {
            Some(g) => Some(center((g.0 as int, g.1 as int))),
            None => None,
        },
        forall|x: int, y: int|
            r.in_grid(x, y) ==> #[trigger] r.cell(x, y) == laid_out_cell(
                shapes@,
                turns@,
                size as int,
                (player_tile.0 as int, player_tile.1 as int),
                match gold_tile {
                    Some(g) => Some((g.0 as int, g.1 as int)),
                    None => None,
                },
                x,
                y,
            ),
{
    let temps = create_templates();
    let s = size as usize;
    proof {
        lemma_square_fits(s as int);
    }
    let n = s * s;
    let mut tiles: Vec<Tile> = Vec::new();
    let mut i: usize = 0;
    while i < n
        invariant
            n == s * s,
            shapes@.len() == n,
            turns@.len() == n,
            forall|j: int| 0 <= j < n ==> #[trigger] shapes@[j] < 4,
            temps@.len() == 4,
            forall|j: int| 0 <= j < 4 ==> (#[trigger] temps@[j])@ == templates()[j],
            i <= n,
            tiles@.len() == i,
            forall|j: int|
                0 <= j < i ==> (#[trigger] tiles@[j])@ == rotated(
                    templates()[shapes@[j] as int],
                    turns@[j] as nat,
                ),
        decreases n - i,
    {
        let t = temps[shapes[i]].rotate(turns[i]);
        tiles.push(t);
        i = i + 1;
    }
    let ghost pt = (player_tile.0 as int, player_tile.1 as int);
    let ghost gt: Option<(int, int)> = match gold_tile {
        Some(g) => Some((g.0 as int, g.1 as int)),
        None => None,
    };
    let mut maze = Maze {
        tiles,
        size: s,
        player: (3 * player_tile.0 + 1, 3 * player_tile.1 + 1),
        gold: match gold_tile {
            Some(g) => Some((3 * g.0 + 1, 3 * g.1 + 1)),
            None => None,
        },
    };
    let ghost m0 = maze;
    assert forall|x: int, y: int| m0.in_grid(x, y) implies #[trigger] m0.cell(x, y) == rotated(
        templates()[shapes@[x / 3 + (y / 3) * s] as int],
        turns@[x / 3 + (y / 3) * s] as nat,
    )[x % 3][y % 3] by {
        lemma_index_in_range(s as int, x, y);
    }
    maze.set_cell(3 * player_tile.0 + 1, 3 * player_tile.1 + 1, Types::Player);
    let ghost m1 = maze;
    match gold_tile {
        Some(g) => {
            maze.set_cell(3 * g.0 + 1, 3 * g.1 + 1, Types::Gold);
        },
        None => {},
    }
    assert forall|x: int, y: int| maze.in_grid(x, y) implies #[trigger] maze.cell(x, y)
        == laid_out_cell(shapes@, turns@, s as int, pt, gt, x, y) by {
        assert(m1.cell(x, y) == if (x, y) == center(pt) {
            Types::Player
        } else {
            m0.cell(x, y)
        });
        if gt is Some {
            assert(center(gt->0) != center(pt));
        }
    }
    assert forall|x: int, y: int| maze.in_grid(x, y) implies (#[trigger] maze.cell(x, y)
        == Types::Player <==> (x, y) == maze.player_pos()) && (maze.cell(x, y) == Types::Gold
        <==> maze.gold_pos() == Some((x, y))) by {
        let slot = x / 3 + (y / 3) * s;
        lemma_index_in_range(s as int, x, y);
        let k = shapes@[slot] as int;
        assert(is_plain(templates()[k])) by {
            assert(is_plain(templates()[0]));
            assert(is_plain(templates()[1]));
            assert(is_plain(templates()[2]));
            assert(is_plain(templates()[3]));
        }
        lemma_rotated_plain(templates()[k], turns@[slot] as nat);
        let c = rotated(templates()[k], turns@[slot] as nat)[x % 3][y % 3];
        assert(c == Types::Empty || c == Types::Wall);
    }
    maze
}

/// Outside its center, tile `(tx, ty)` of `m` is template `k` turned `r`
/// quarters.
pub open spec fn tile_shaped(m: Maze, tx: int, ty: int, k: int, r: nat) -> bool {
    forall|ox: int, oy: int|
        0 <= ox < 3 && 0 <= oy < 3 && (ox, oy) != (1int, 1int) ==> #[trigger] m.cell(
            3 * tx + ox,
            3 * ty + oy,
        ) == rotated(templates()[k], r)[ox][oy]
}

/// Outside its center, tile `(tx, ty)` of `m` is one of the templates under
/// one of the four turns.
pub open spec fn from_template(m: Maze, tx: int, ty: int) -> bool {
    exists|k: int, q: nat| 0 <= k < 4 && q < 4 && #[trigger] tile_shaped(m, tx, ty, k, q)
}

/// A fresh random maze of `size * size` tiles. Each tile is one of the four
/// templates under one of four turns; the player starts at the center of one
/// tile and, when there is another tile, the gold at the center of another.
pub fn create_maze(size: u16) -> (r: Maze)
    ensures
        r.wf(),
        r.grid_size() == size,
        size == 0 ==> r.gold_pos() is None,
        size > 0 ==> r.player_pos().0 % 3 == 1 && r.player_pos().1 % 3 == 1,
        size == 1 ==> r.gold_pos() is None,
        size > 1 ==> (r.gold_pos() matches Some(g) && g.0 % 3 == 1 && g.1 % 3 == 1 && (g.0 / 3, g.1
            / 3) != (r.player_pos().0 / 3, r.player_pos().1 / 3)),
        forall|tx: int, ty: int|
            0 <= tx < size && 0 <= ty < size ==> #[trigger] from_template(r, tx, ty),
{
    if size == 0 {
        let empty = Maze { tiles: Vec::new(), size: 0, player: (0, 0), gold: None };
        assert(empty.tiles@.len() == 0);
        assert(empty.storage_ok());
        return empty;
    }
    let s = size as usize;
    proof {
        lemma_square_fits(s as int);
    }
    let n = s * s;
    let mut shapes: Vec<usize> = Vec::new();
    let mut turns: Vec<u8> = Vec::new();
    let mut i: usize = 0;
    while i < n
        invariant
            i <= n,
            shapes@.len() == i,
            turns@.len() == i,
            forall|j: int| 0 <= j < i ==> #[trigger] shapes@[j] < 4,
            forall|j: int| 0 <= j < i ==> #[trigger] turns@[j] < 4,
        decreases n - i,
    {
        shapes.push(random_below(4));
        turns.push(random_below(4) as u8);
        i = i + 1;
    }
    let player = (random_below(s), random_below(s));
    proof {
        assert(s > 1 ==> n > 1) by (nonlinear_arith)
            requires
                n == s * s,
        ;
    }
    let gold = if n > 1 {
        let k = random_below(n - 1);
        proof {
            lemma_index_in_range(s as int, 3 * player.0 + 1, 3 * player.1 + 1);
        }
        let p = player.0 + player.1 * s;
        let g = if k >= p {
            k + 1
        } else {
            k
        };
        proof {
            vstd::arithmetic::div_mod::lemma_fundamental_div_mod(g as int, s as int);
            let q = g as int / s as int;
            let m = g as int % s as int;
            assert(q < s) by (nonlinear_arith)
                requires
                    g == s * q + m,
                    0 <= m,
                    g < s * s,
                    s > 0,
            ;
            assert(p as int == player.0 + player.1 * s);
            if (m, q) == (player.0 as int, player.1 as int) {
                assert(g == s * q + m);
                assert(player.1 * s == s * q) by (nonlinear_arith)
                    requires
                        player.1 == q,
                ;
            }
        }
        Some((g % s, g / s))
    } else {
        None
    };
    let r = build_maze(size, &shapes, &turns, player, gold);
    if let Some(g) = gold {
        assert((3 * g.0 + 1) / 3 == g.0 && (3 * player.0 + 1) / 3 == player.0);
        assert((3 * g.1 + 1) / 3 == g.1 && (3 * player.1 + 1) / 3 == player.1);
    }
    assert forall|tx: int, ty: int| 0 <= tx < size && 0 <= ty < size implies #[trigger] from_template(
        r,
        tx,
        ty,
    ) by {
        let slot = tx + ty * s;
        assert(0 <= slot < n) by (nonlinear_arith)
            requires
                0 <= tx < s,
                0 <= ty < s,
                slot == tx + ty * s,
                n == s * s,
        ;
        let k = shapes@[slot] as int;
        let q = turns@[slot] as nat;
        assert forall|ox: int, oy: int|
            0 <= ox < 3 && 0 <= oy < 3 && (ox, oy) != (1int, 1int) implies #[trigger] r.cell(
            3 * tx + ox,
            3 * ty + oy,
        ) == rotated(templates()[k], q)[ox][oy] by {
            let x = 3 * tx + ox;
            let y = 3 * ty + oy;
            assert(x / 3 == tx && x % 3 == ox);
            assert(y / 3 == ty && y % 3 == oy);
            assert(r.in_grid(x, y));
        }
        assert(tile_shaped(r, tx, ty, k, q));
    }
    r
}

impl GridModel for Maze {
    type Piece = Types;

    open spec fn model_ok(&self) -> bool {
        self.wf()
    }

    open spec fn grid_side(&self) -> nat {
        self.grid_size()
    }

    open spec fn tile_side(&self) -> nat {
        3
    }

    open spec fn piece(&self, x: int, y: int) -> Types {
        self.cell(x, y)
    }

    fn get_piece(&self, x: u16, y: u16) -> (r: &Types) {
        let (x, y) = (x as usize, y as usize);
        proof {
            lemma_index_in_range(self.size as int, x as int, y as int);
        }
        self.tiles[x / 3 + (y / 3) * self.size].get_ref(x % 3, y % 3)
    }

    fn get_size(&self) -> (r: u16) {
        self.size as u16
    }

    fn get_tile_size(&self) -> (r: u16) {
        3
    }
}

} // verus!
