use vstd::prelude::*;

verus! {

/// The colours a cell can be drawn in.
#[derive(Copy, Clone, Debug, PartialEq, Eq, Structural)]
pub enum Shade {
    Black,
    White,
    Green,
    Yellow,
}

/// Foreground and background colour of one drawn cell.
#[derive(Copy, Clone, Debug, PartialEq, Eq, Structural)]
pub struct Style {
    pub fg: Shade,
    pub bg: Shade,
}

/// A full block glyph.
pub const FULL: &'static str = "\u{2588}";

/// What the renderer prints when not even one cell fits.
pub const TOO_SMALL: &'static str = "Terminal too small!";

/// Something that can be drawn as one cell.
pub trait Block {
    /// The style and glyph this block is drawn with.
    spec fn look(&self) -> (Style, &'static str);

    fn get_style(&self) -> (r: (Style, &'static str))
        ensures
            r == self.look(),
    ;
}

/// A square grid of `get_size() * get_size()` tiles, each of
/// `get_tile_size() * get_tile_size()` cells, addressed by global cell
/// coordinates.
pub trait GridModel {
    type Piece: Block;

    /// The model is in a state that can be drawn.
    spec fn model_ok(&self) -> bool;

    /// Tiles per side.
    spec fn grid_side(&self) -> nat;

    /// Cells per tile side.
    spec fn tile_side(&self) -> nat;

    /// The cell at global coordinates `(x, y)`.
    spec fn piece(&self, x: int, y: int) -> Self::Piece;

    fn get_piece(&self, x: u16, y: u16) -> (r: &Self::Piece)
        requires
            self.model_ok(),
            x < self.grid_side() * self.tile_side(),
            y < self.grid_side() * self.tile_side(),
        ensures
            *r == self.piece(x as int, y as int),
    ;

    fn get_size(&self) -> (r: u16)
        requires
            self.model_ok(),
        ensures
            r == self.grid_side(),
    ;

    fn get_tile_size(&self) -> (r: u16)
        requires
            self.model_ok(),
        ensures
            r == self.tile_side(),
    ;
}

/// What the terminal reported: a typed character or its new size.
#[derive(Copy, Clone, Debug, PartialEq, Eq, Structural)]
pub enum ReadResizeEvent {
    Char(char),
    Resize(u16, u16),
}

/// A model together with the status line shown under it.
pub struct GridVisualizer<M: GridModel> {
    pub maze: M,
    pub message: Option<String>,
}

/// One drawn picture: `rows[i][j]` is the style and glyph of buffer cell
/// `(j, i)`, and `text`, if any, is printed from column 0 of `text_row`.
pub struct Frame {
    pub block_size: u16,
    pub rows: Vec<Vec<(Style, &'static str)>>,
    pub text_row: u16,
    pub text: Option<String>,
}

/// The side of the square, in rows, that a buffer of `width` by `height`
/// offers the grid: half the width (a cell is two columns wide) or the height
/// less the status row, whichever is smaller.
pub open spec fn extent(width: int, height: int) -> int {
    let rows = if height > 0 {
        height - 1
    } else {
        0
    };
    if width / 2 < rows {
        width / 2
    } else {
        rows
    }
}

/// The largest whole number of rows per cell at which a grid of `total` cells
/// per side fits; zero when even one row per cell does not fit.
pub open spec fn best_block(width: int, height: int, total: int) -> int {
    if total == 0 {
        0
    } else {
        extent(width, height) / total
    }
}

/// `j / (2 * b) < t` and `i / b < t` for every pixel of the drawn square.
proof fn lemma_pixel_in_grid(b: int, t: int, i: int, j: int)
    requires
        b > 0,
        t > 0,
        0 <= i < b * t,
        0 <= j < 2 * (b * t),
    ensures
        0 <= i / b < t,
        0 <= j / (2 * b) < t,
{
    vstd::arithmetic::div_mod::lemma_fundamental_div_mod(i, b);
    vstd::arithmetic::div_mod::lemma_fundamental_div_mod(j, 2 * b);
    let qi = i / b;
    let qj = j / (2 * b);
    assert(qi < t) by (nonlinear_arith)
        requires
            i == b * qi + i % b,
            0 <= i % b,
            i < b * t,
            b > 0,
    ;
    assert(qj < t) by (nonlinear_arith)
        requires
            j == (2 * b) * qj + j % (2 * b),
            0 <= j % (2 * b),
            j < 2 * (b * t),
            b > 0,
    ;
    assert(qi >= 0) by (nonlinear_arith)
        requires
            i >= 0,
            b > 0,
            qi == i / b,
    ;
    assert(qj >= 0) by (nonlinear_arith)
        requires
            j >= 0,
            b > 0,
            qj == j / (2 * b),
    ;
}

impl<M: GridModel> GridVisualizer<M> {
    /// The style and glyph of the cell at `(x, y)`.
    fn get_style(&self, x: u16, y: u16) -> (r: (Style, &'static str))
        requires
            self.maze.model_ok(),
            x < self.maze.grid_side() * self.maze.tile_side(),
            y < self.maze.grid_side() * self.maze.tile_side(),
        ensures
            r == self.maze.piece(x as int, y as int).look(),
    {
        self.maze.get_piece(x, y).get_style()
    }

    /// Lays the model out on a buffer of `width` by `height` cells at the
    /// largest scale that fits: each grid cell becomes `b` rows by `2 * b`
    /// columns, and the status message goes on the row under the grid. When
    /// `b` would be zero only a notice that the buffer is too small is drawn.
    pub fn render(&self, width: u16, height: u16) -> (r: Frame)
        requires
            self.maze.model_ok(),
        ensures
            ({
                let t = self.maze.grid_side() * self.maze.tile_side();
                let b = best_block(width as int, height as int, t as int);
                &&& r.block_size == b
                &&& b == 0 ==> r.rows@.len() == 0 && r.text_row == 0 && (r.text matches Some(s) && s@
                    == TOO_SMALL@)
                &&& b > 0 ==> {
                    &&& r.rows@.len() == b * t
                    &&& r.text_row == b * t
                    &&& r.text == self.message
                    &&& forall|i: int|
                        0 <= i < b * t ==> (#[trigger] r.rows@[i])@.len() == 2 * (b * t)
                    &&& forall|i: int, j: int|
                        0 <= i < b * t && 0 <= j < 2 * (b * t) ==> #[trigger] r.rows@[i]@[j]
                            == self.maze.piece(j / (2 * b), i / b).look()
                }
            }),
    {
        let side = self.maze.get_size() as u32;
        let tile = self.maze.get_tile_size() as u32;
        proof {
            assert(side * tile <= 65535 * 65535) by (nonlinear_arith)
                requires
                    side <= 65535,
                    tile <= 65535,
            ;
        }
        let total: u32 = side * tile;
        let rows_free: u32 = if height > 0 {
            height as u32 - 1
        } else {
            0
        };
        let half: u32 = width as u32 / 2;
        let maze_extent: u32 = if half < rows_free {
            half
        } else {
            rows_free
        };
        let block: u32 = if total == 0 {
            0
        } else {
            maze_extent / total
        };
        if block == 0 {
            return Frame { block_size: 0, rows: Vec::new(), text_row: 0, text: Some(TOO_SMALL.to_owned()) };
        }
        proof {
            vstd::arithmetic::div_mod::lemma_fundamental_div_mod(maze_extent as int, total as int);
            assert(block * total <= maze_extent) by (nonlinear_arith)
                requires
                    block == maze_extent / total,
                    maze_extent == total * (maze_extent / total) + maze_extent % total,
                    maze_extent % total >= 0,
            ;
            assert(block <= block * total) by (nonlinear_arith)
                requires
                    total >= 1,
                    block >= 1,
            ;
        }
        let drawn: u32 = block * total;
        let mut rows: Vec<Vec<(Style, &'static str)>> = Vec::new();
        let mut i: u32 = 0;
        while i < drawn
            invariant
                self.maze.model_ok(),
                total == self.maze.grid_side() * self.maze.tile_side(),
                block > 0,
                drawn == block * total,
                drawn <= half,
                block <= drawn,
                half <= u16::MAX / 2,
                i <= drawn,
                rows@.len() == i,
                forall|a: int| 0 <= a < i ==> (#[trigger] rows@[a])@.len() == 2 * drawn,
                forall|a: int, c: int|
                    0 <= a < i && 0 <= c < 2 * drawn ==> #[trigger] rows@[a]@[c]
                        == self.maze.piece(c / (2 * block as int), a / block as int).look(),
            decreases drawn - i,
        {
            let mut row: Vec<(Style, &'static str)> = Vec::new();
            let mut j: u32 = 0;
            while j < 2 * drawn
                invariant
                    self.maze.model_ok(),
                    total == self.maze.grid_side() * self.maze.tile_side(),
                    block > 0,
                    drawn == block * total,
                    drawn <= half,
                    block <= drawn,
                    half <= u16::MAX / 2,
                    i < drawn,
                    j <= 2 * drawn,
                    row@.len() == j,
                    forall|c: int|
                        0 <= c < j ==> #[trigger] row@[c] == self.maze.piece(
                            c / (2 * block as int),
                            i as int / block as int,
                        ).look(),
                decreases 2 * drawn - j,
            {
                proof {
                    lemma_pixel_in_grid(block as int, total as int, i as int, j as int);
                }
                let x = j / (2 * block);
                let y = i / block;
                row.push(self.get_style(x as u16, y as u16));
                j = j + 1;
            }
            rows.push(row);
            i = i + 1;
        }
        let text = match &self.message {
            Some(m) => Some(m.clone()),
            None => None,
        };
        Frame { block_size: block as u16, rows, text_row: drawn as u16, text }
    }
}

} // verus!
