use vstd::prelude::*;
use vstd::string::StringExecFns;
use crate::grid_view::{Block, Shade, Style, FULL};

verus! {

/// The kind of one maze cell.
#[derive(Copy, Clone, Debug, PartialEq, Eq, Structural)]
pub enum Types {
    Empty,
    Wall,
    Player,
    Gold,
}

impl Types {
    /// The three characters a cell prints as in plain text.
    pub fn text(&self) -> (r: &'static str)
        ensures
            r == self.text_spec(),
    {
        match self {
            Types::Empty => "   ",
            Types::Wall => " # ",
            Types::Player => " p ",
            Types::Gold => " g ",
        }
    }

    pub open spec fn text_spec(&self) -> &'static str {
        match self {
            Types::Empty => "   ",
            Types::Wall => " # ",
            Types::Player => " p ",
            Types::Gold => " g ",
        }
    }
}

impl Block for Types {
    /// A full block on black: black for empty cells, white for walls, green
    /// for the player and yellow for the gold.
    open spec fn look(&self) -> (Style, &'static str) {
        let fg = match self {
            Types::Empty => Shade::Black,
            Types::Wall => Shade::White,
            Types::Player => Shade::Green,
            Types::Gold => Shade::Yellow,
        };
        (Style { fg, bg: Shade::Black }, FULL)
    }

    fn get_style(&self) -> (r: (Style, &'static str)) {
        match self {
            Types::Empty => (Style { fg: Shade::Black, bg: Shade::Black }, FULL),
            Types::Wall => (Style { fg: Shade::White, bg: Shade::Black }, FULL),
            Types::Player => (Style { fg: Shade::Green, bg: Shade::Black }, FULL),
            Types::Gold => (Style { fg: Shade::Yellow, bg: Shade::Black }, FULL),
        }
    }
}

/// A square block of cells, addressed `place[x][y]`.
#[derive(Copy, Clone, Debug)]
pub struct Tile {
    pub place: [[Types; 3]; 3],
}

/// One quarter turn: the cell at `(x, y)` comes from `(2 - y, x)`.
pub open spec fn quarter(g: Seq<Seq<Types>>) -> Seq<Seq<Types>> {
    Seq::new(3, |x: int| Seq::new(3, |y: int| g[2 - y][x]))
}

/// `r` quarter turns.
pub open spec fn rotated(g: Seq<Seq<Types>>, r: nat) -> Seq<Seq<Types>>
    decreases r,
{
    if r == 0 {
        g
    } else {
        quarter(rotated(g, (r - 1) as nat))
    }
}

/// The L-shaped corridor template.
pub open spec fn lshape_cells() -> Seq<Seq<Types>> {
    seq![
        seq![Types::Wall, Types::Empty, Types::Wall],
        seq![Types::Wall, Types::Empty, Types::Empty],
        seq![Types::Wall, Types::Wall, Types::Wall],
    ]
}

/// The cross template: walls in the four corners only.
pub open spec fn cross_cells() -> Seq<Seq<Types>> {
    seq![
        seq![Types::Wall, Types::Empty, Types::Wall],
        seq![Types::Empty, Types::Empty, Types::Empty],
        seq![Types::Wall, Types::Empty, Types::Wall],
    ]
}

/// The straight corridor template.
pub open spec fn straight_cells() -> Seq<Seq<Types>> {
    seq![
        seq![Types::Wall, Types::Wall, Types::Wall],
        seq![Types::Empty, Types::Empty, Types::Empty],
        seq![Types::Wall, Types::Wall, Types::Wall],
    ]
}

/// The fully open template.
pub open spec fn open_cells() -> Seq<Seq<Types>> {
    seq![
        seq![Types::Empty, Types::Empty, Types::Empty],
        seq![Types::Empty, Types::Empty, Types::Empty],
        seq![Types::Empty, Types::Empty, Types::Empty],
    ]
}

/// The built-in templates, in the order `create_templates` lists them.
pub open spec fn templates() -> Seq<Seq<Seq<Types>>> {
    seq![lshape_cells(), cross_cells(), straight_cells(), open_cells()]
}

/// Every cell is `Empty` or `Wall`.
pub open spec fn is_plain(g: Seq<Seq<Types>>) -> bool {
    forall|x: int, y: int|
        0 <= x < 3 && 0 <= y < 3 ==> (#[trigger] g[x][y] == Types::Empty || g[x][y] == Types::Wall)
}

/// Turning a tile keeps it free of players and gold.
pub proof fn lemma_rotated_plain(g: Seq<Seq<Types>>, r: nat)
    requires
        is_plain(g),
    ensures
        is_plain(rotated(g, r)),
    decreases r,
{
    if r > 0 {
        lemma_rotated_plain(g, (r - 1) as nat);
        let h = rotated(g, (r - 1) as nat);
        assert forall|x: int, y: int| 0 <= x < 3 && 0 <= y < 3 implies (#[trigger] quarter(h)[x][y]
            == Types::Empty || quarter(h)[x][y] == Types::Wall) by {
            assert(quarter(h)[x][y] == h[2 - y][x]);
        }
    }
}

/// Four quarter turns give back the tile.
pub proof fn rotate_four_times_is_identity(t: Tile)
    ensures
        rotated(rotated(rotated(rotated(t@, 1), 1), 1), 1) == t@,
{
    let g = t@;
    reveal_with_fuel(rotated, 2);
    let h = quarter(quarter(quarter(quarter(g))));
    assert(rotated(rotated(rotated(rotated(g, 1), 1), 1), 1) == h);
    assert forall|x: int| 0 <= x < 3 implies h[x] =~= g[x] by {}
    assert(h =~= g);
}

/// Builds the four templates: L-shape, cross, straight, open.
pub fn create_templates() -> (r: Vec<Tile>)
    ensures
        r@.len() == 4,
        forall|i: int| 0 <= i < 4 ==> (#[trigger] r@[i])@ == templates()[i],
{
    let mut temps: Vec<Tile> = Vec::new();
    let lshape = Tile {
        place: [
            [Types::Wall, Types::Empty, Types::Wall],
            [Types::Wall, Types::Empty, Types::Empty],
            [Types::Wall, Types::Wall, Types::Wall],
        ],
    };
    let cross = Tile {
        place: [
            [Types::Wall, Types::Empty, Types::Wall],
            [Types::Empty, Types::Empty, Types::Empty],
            [Types::Wall, Types::Empty, Types::Wall],
        ],
    };
    let straight = Tile {
        place: [
            [Types::Wall, Types::Wall, Types::Wall],
            [Types::Empty, Types::Empty, Types::Empty],
            [Types::Wall, Types::Wall, Types::Wall],
        ],
    };
    let empty = Tile {
        place: [
            [Types::Empty, Types::Empty, Types::Empty],
            [Types::Empty, Types::Empty, Types::Empty],
            [Types::Empty, Types::Empty, Types::Empty],
        ],
    };
    assert(lshape@ =~~= lshape_cells());
    assert(cross@ =~~= cross_cells());
    assert(straight@ =~~= straight_cells());
    assert(empty@ =~~= open_cells());
    temps.push(lshape);
    temps.push(cross);
    temps.push(straight);
    temps.push(empty);
    temps
}

/// The first `n` cells of line `y` of grid `g` as text, cell `(x, y)` at
/// position `x`.
pub open spec fn line_text(g: Seq<Seq<Types>>, y: int, n: int) -> Seq<char>
    decreases n,
{
    if n <= 0 {
        Seq::empty()
    } else {
        line_text(g, y, n - 1) + g[n - 1][y].text_spec()@
    }
}

/// The first `n` lines of a tile as text, each ended by a newline.
pub open spec fn tile_text(g: Seq<Seq<Types>>, n: int) -> Seq<char>
    decreases n,
{
    if n <= 0 {
        Seq::empty()
    } else {
        tile_text(g, n - 1) + line_text(g, n - 1, 3) + "\n"@
    }
}

impl View for Tile {
    type V = Seq<Seq<Types>>;

    open spec fn view(&self) -> Seq<Seq<Types>> {
        Seq::new(3, |x: int| self.place[x]@)
    }
}

impl Tile {
    /// Builds a tile from its cells, `rows[x][y]`.
    pub fn new(place: [[Types; 3]; 3]) -> (r: Tile)
        ensures
            r.place == place,
    {
        Tile { place }
    }

    /// The cell at `(x, y)`.
    pub fn get(&self, x: usize, y: usize) -> (r: Types)
        requires
            x < 3,
            y < 3,
        ensures
            r == self@[x as int][y as int],
    {
        self.place[x][y]
    }

    /// A reference to the cell at `(x, y)`.
    pub fn get_ref(&self, x: usize, y: usize) -> (r: &Types)
        requires
            x < 3,
            y < 3,
        ensures
            *r == self@[x as int][y as int],
    {
        &self.place[x][y]
    }

    /// Overwrites the cell at `(x, y)`.
    pub fn set(&mut self, x: usize, y: usize, v: Types)
        requires
            x < 3,
            y < 3,
        ensures
            final(self)@ == old(self)@.update(x as int, old(self)@[x as int].update(y as int, v)),
    {
        self.place[x][y] = v;
        assert(final(self)@ =~= old(self)@.update(x as int, old(self)@[x as int].update(y as int, v)));
    }

    /// The tile as three lines of text, one line per `y`.
    pub fn to_text(&self) -> (r: String)
        ensures
            r@ == tile_text(self@, 3),
    {
        let mut out = String::new();
        let mut y: usize = 0;
        while y < 3
            invariant
                y <= 3,
                out@ == tile_text(self@, y as int),
            decreases 3 - y,
        {
            let mut x: usize = 0;
            let ghost start = out@;
            while x < 3
                invariant
                    x <= 3,
                    y < 3,
                    start == tile_text(self@, y as int),
                    out@ == start + line_text(self@, y as int, x as int),
                decreases 3 - x,
            {
                out.append(self.place[x][y].text());
                proof {
                    assert(start + line_text(self@, y as int, x + 1) =~= start + line_text(
                        self@,
                        y as int,
                        x as int,
                    ) + self@[x as int][y as int].text_spec()@);
                }
                x = x + 1;
            }
            out.append("\n");
            proof {
                assert(tile_text(self@, y + 1) =~= start + line_text(self@, y as int, 3) + "\n"@);
            }
            y = y + 1;
        }
        out
    }

    /// The tile turned by one quarter.
    fn quarter_turn(&self) -> (r: Tile)
        ensures
            r@ == quarter(self@),
    {
        let p = &self.place;
        let r = Tile {
            place: [
                [p[2][0], p[1][0], p[0][0]],
                [p[2][1], p[1][1], p[0][1]],
                [p[2][2], p[1][2], p[0][2]],
            ],
        };
        assert(r@ =~= quarter(self@)) by {
            assert forall|x: int| 0 <= x < 3 implies r@[x] =~= quarter(self@)[x] by {}
        }
        r
    }

    /// The tile turned by `rotate` quarters.
    pub fn rotate(self, rotate: u8) -> (r: Tile)
        ensures
            r@ == rotated(self@, rotate as nat),
    {
        let mut t = self;
        let mut k: u8 = 0;
        while k < rotate
            invariant
                k <= rotate,
                t@ == rotated(self@, k as nat),
            decreases rotate - k,
        {
            t = t.quarter_turn();
            k = k + 1;
        }
        t
    }
}

} // verus!
