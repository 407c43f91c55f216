use tilemaze::grid_view::{Block, Shade, Style, FULL};
use tilemaze::tile::{create_templates, Tile, Types};

use tilemaze::tile::Types::{Empty as E, Wall as W};

#[test]
fn templates_are_the_four_shapes() {
    let t = create_templates();
    assert_eq!(t.len(), 4);
    assert_eq!(t[0].place, [[W, E, W], [W, E, E], [W, W, W]]);
    assert_eq!(t[1].place, [[W, E, W], [E, E, E], [W, E, W]]);
    assert_eq!(t[2].place, [[W, W, W], [E, E, E], [W, W, W]]);
    assert_eq!(t[3].place, [[E, E, E], [E, E, E], [E, E, E]]);
}

#[test]
fn one_quarter_turn() {
    let t = create_templates();
    assert_eq!(t[0].rotate(1).place, [[W, W, W], [W, E, E], [W, E, W]]);
    assert_eq!(t[2].rotate(1).place, [[W, E, W], [W, E, W], [W, E, W]]);
    assert_eq!(t[0].rotate(0).place, t[0].place);
}

#[test]
fn four_turns_give_back_every_template() {
    for t in create_templates() {
        assert_eq!(t.rotate(4).place, t.place);
        assert_eq!(t.rotate(1).rotate(1).rotate(1).rotate(1).place, t.place);
        assert_eq!(t.rotate(6).place, t.rotate(2).place);
    }
    let odd = Tile::new([[Types::Player, E, W], [Types::Gold, W, E], [E, E, W]]);
    assert_eq!(odd.rotate(4).place, odd.place);
    assert_ne!(odd.rotate(1).place, odd.place);
}

#[test]
fn set_and_get_cells() {
    let mut t = create_templates()[3];
    t.set(2, 0, W);
    assert_eq!(t.get(2, 0), W);
    assert_eq!(*t.get_ref(0, 2), E);
}

#[test]
fn cell_text_and_style() {
    assert_eq!(E.text(), "   ");
    assert_eq!(W.text(), " # ");
    assert_eq!(Types::Player.text(), " p ");
    assert_eq!(Types::Gold.text(), " g ");
    assert_eq!(W.get_style(), (Style { fg: Shade::White, bg: Shade::Black }, FULL));
    assert_eq!(E.get_style().0.fg, Shade::Black);
    assert_eq!(Types::Player.get_style().0.fg, Shade::Green);
    assert_eq!(Types::Gold.get_style().0.fg, Shade::Yellow);
}

#[test]
fn tile_as_text() {
    let t = create_templates();
    assert_eq!(t[0].to_text(), " #  #  # \n       # \n #     # \n");
    let mut m = t[3];
    m.set(1, 1, Types::Player);
    assert_eq!(m.to_text(), "         \n    p    \n         \n");
}
