use conway::life::{Buff, Cell};
use conway::render::TerminalRenderer;

fn grid_with(w: usize, h: usize, alive: &[(usize, usize)]) -> Buff {
    let mut b = Buff::new(w, h, Cell::Dead);
    for &(i, j) in alive {
        b.set((i, j), Cell::Alive);
    }
    b
}

const DOTS: [(usize, usize); 8] = [(0, 0), (1, 0), (2, 0), (0, 1), (1, 1), (2, 1), (3, 0), (3, 1)];

#[test]
fn char_size_per_mode() {
    assert_eq!(TerminalRenderer::new(true).char_size(), (2, 4));
    assert_eq!(TerminalRenderer::new(false).char_size(), (1, 1));
    assert_eq!(TerminalRenderer::default().char_size(), (1, 1));
}

#[test]
fn size_scales_screen() {
    assert_eq!(TerminalRenderer::new(true).size(80, 24), (160, 96));
    assert_eq!(TerminalRenderer::new(false).size(80, 24), (80, 24));
}

#[test]
fn block_mode_glyphs() {
    let r = TerminalRenderer::new(false);
    let b = grid_with(2, 1, &[(0, 1)]);
    assert_eq!(r.decide_char(&b, 0, 0), ' ');
    assert_eq!(r.decide_char(&b, 0, 1), '\u{2588}');
}

#[test]
fn braille_all_alive_and_all_dead() {
    let r = TerminalRenderer::new(true);
    let b = Buff::new(2, 4, Cell::Alive);
    assert_eq!(r.decide_char(&b, 0, 0) as u32, 0x2800 + 255);
    let b = Buff::new(2, 4, Cell::Dead);
    assert_eq!(r.decide_char(&b, 0, 0), '\u{2800}');
}

#[test]
fn braille_each_dot_has_its_weight() {
    let r = TerminalRenderer::new(true);
    for (k, &dot) in DOTS.iter().enumerate() {
        let b = grid_with(2, 4, &[dot]);
        assert_eq!(r.decide_char(&b, 0, 0) as u32, 0x2800 + (1 << k));
    }
}

#[test]
fn braille_flipping_one_dot_adds_its_weight() {
    let r = TerminalRenderer::new(true);
    let base = [(0, 0), (2, 1), (3, 0)];
    let before = r.decide_char(&grid_with(2, 4, &base), 0, 0) as u32;
    assert_eq!(before, 0x2800 + 1 + 32 + 64);
    let mut flipped = base.to_vec();
    flipped.push((1, 1));
    let after = r.decide_char(&grid_with(2, 4, &flipped), 0, 0) as u32;
    assert_eq!(after, before + 16);
}

#[test]
fn braille_block_offset() {
    let r = TerminalRenderer::new(true);
    let b = grid_with(4, 8, &[(4, 2), (7, 3)]);
    assert_eq!(r.decide_char(&b, 4, 2) as u32, 0x2800 + 1 + 128);
    assert_eq!(r.decide_char(&b, 0, 0) as u32, 0x2800);
}

#[test]
fn frame_block_mode() {
    let r = TerminalRenderer::new(false);
    let b = grid_with(3, 2, &[(0, 0), (1, 2)]);
    let f = r.frame(&b, 3, 2).unwrap();
    assert_eq!(f, vec![vec!['\u{2588}', ' ', ' '], vec![' ', ' ', '\u{2588}']]);
}

#[test]
fn frame_braille_mode() {
    let r = TerminalRenderer::new(true);
    let b = grid_with(4, 8, &[(0, 0), (7, 3)]);
    let f = r.frame(&b, 2, 2).unwrap();
    assert_eq!(f, vec![vec!['\u{2801}', '\u{2800}'], vec!['\u{2800}', '\u{2880}']]);
}

#[test]
fn frame_rejects_screen_beyond_grid() {
    let r = TerminalRenderer::new(true);
    let b = Buff::new(4, 4, Cell::Dead);
    assert!(r.frame(&b, 3, 1).is_none());
    assert!(r.frame(&b, 2, 2).is_none());
    assert_eq!(r.frame(&b, 2, 1).unwrap().len(), 1);
    assert_eq!(r.frame(&b, 0, 0).unwrap().len(), 0);
    let r = TerminalRenderer::new(false);
    assert!(r.frame(&b, 5, 1).is_none());
    assert_eq!(r.frame(&b, 4, 4).unwrap().len(), 4);
}

#[test]
fn frame_rejects_braille_grid_not_in_whole_blocks() {
    let r = TerminalRenderer::new(true);
    assert!(r.frame(&Buff::new(3, 4, Cell::Dead), 1, 1).is_none());
    assert!(r.frame(&Buff::new(5, 8, Cell::Alive), 2, 2).is_none());
    assert!(r.frame(&Buff::new(4, 7, Cell::Dead), 0, 0).is_none());
    assert!(r.frame(&Buff::new(4, 8, Cell::Dead), 2, 2).is_some());
    // Block mode takes any grid.
    let r = TerminalRenderer::new(false);
    assert!(r.frame(&Buff::new(3, 7, Cell::Dead), 3, 7).is_some());
}
