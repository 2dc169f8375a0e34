use minesweeper::BoardError;
use minesweeper::MineSweeper;
use minesweeper::OpenResult;

#[test]
fn test() {
    let mut ms = MineSweeper::new(10, 10, 5).unwrap();
    ms.open((5, 5)).unwrap();
    println!("{}", ms.render());
}

#[test]
fn mine_count_matches_construction() {
    for &(w, h, m) in &[(4usize, 4usize, 5usize), (5, 5, 0), (5, 5, 25), (1, 2, 1), (7, 3, 21)] {
        let ms = MineSweeper::new(w, h, m).unwrap();
        let mut found = 0;
        for x in 0..w {
            for y in 0..h {
                if ms.is_mine((x, y)) {
                    found += 1;
                }
            }
        }
        assert_eq!(found, m);
    }
}

#[test]
fn open_is_idempotent() {
    let mut ms = MineSweeper::new(4, 4, 0).unwrap();
    assert!(!ms.is_open((2, 3)));
    ms.open((2, 3)).unwrap();
    assert!(ms.is_open((2, 3)));
    let first = ms.render();
    ms.open((2, 3)).unwrap();
    assert!(ms.is_open((2, 3)));
    assert_eq!(ms.render(), first);
}

#[test]
fn open_reports_mines_exactly() {
    // A fully mined board: every cell opens as a mine, in any order.
    let mut full = MineSweeper::new(3, 2, 6).unwrap();
    for x in 0..3 {
        for y in 0..2 {
            assert_eq!(full.open((x, y)), Ok(OpenResult::Mine));
        }
    }
    // A mine-free board: every cell opens safely with a zero payload.
    let mut empty = MineSweeper::new(3, 2, 0).unwrap();
    for x in 0..3 {
        for y in 0..2 {
            assert_eq!(empty.open((x, y)), Ok(OpenResult::NoMine(0)));
        }
    }
}

#[test]
fn neighbor_counts_on_full_board() {
    // All 9 cells mined: each count is exactly the number of neighbors.
    let ms = MineSweeper::new(3, 3, 9).unwrap();
    assert_eq!(ms.neighbor_mine_count((1, 1)), 8);
    assert_eq!(ms.neighbor_mine_count((0, 0)), 3);
    assert_eq!(ms.neighbor_mine_count((2, 2)), 3);
    assert_eq!(ms.neighbor_mine_count((1, 0)), 5);
    assert_eq!(ms.neighbor_mine_count((0, 1)), 5);
}

#[test]
fn neighbor_counts_on_empty_board() {
    let ms = MineSweeper::new(3, 3, 0).unwrap();
    for x in 0..3 {
        for y in 0..3 {
            assert_eq!(ms.neighbor_mine_count((x, y)), 0);
        }
    }
}

#[test]
fn neighbors_sizes_by_location() {
    let ms = MineSweeper::new(4, 5, 0).unwrap();
    assert_eq!(ms.neighbors((0, 0)).len(), 3);
    assert_eq!(ms.neighbors((3, 4)).len(), 3);
    assert_eq!(ms.neighbors((1, 0)).len(), 5);
    assert_eq!(ms.neighbors((0, 2)).len(), 5);
    assert_eq!(ms.neighbors((1, 1)).len(), 8);
    assert_eq!(ms.neighbors((2, 3)).len(), 8);
}

#[test]
fn neighbors_of_single_cell_board() {
    let ms = MineSweeper::new(1, 1, 0).unwrap();
    assert_eq!(ms.neighbors((0, 0)).len(), 0);
    assert_eq!(ms.neighbor_mine_count((0, 0)), 0);
}

#[test]
fn neighbors_are_the_adjacent_cells() {
    let ms = MineSweeper::new(3, 3, 0).unwrap();
    let mut ns = ms.neighbors((0, 0));
    ns.sort();
    assert_eq!(ns, vec![(0, 1), (1, 0), (1, 1)]);
}

#[test]
fn full_board_has_every_cell_mined() {
    // mine_count equals the number of cells: both cells must be mines.
    let mut ms = MineSweeper::new(2, 1, 2).unwrap();
    assert!(ms.is_mine((0, 0)));
    assert!(ms.is_mine((1, 0)));
    assert_eq!(ms.open((0, 0)), Ok(OpenResult::Mine));
    assert_eq!(ms.open((1, 0)), Ok(OpenResult::Mine));
}

#[test]
fn render_unopened_board() {
    let ms = MineSweeper::new(2, 2, 0).unwrap();
    assert_eq!(ms.render(), "\u{2b1b}\u{fe0f}\u{2b1b}\u{fe0f}\n\u{2b1b}\u{fe0f}\u{2b1b}\u{fe0f}\n");
    // Mines stay hidden until opened.
    let mined = MineSweeper::new(2, 2, 4).unwrap();
    assert_eq!(
        mined.render(),
        "\u{2b1b}\u{fe0f}\u{2b1b}\u{fe0f}\n\u{2b1b}\u{fe0f}\u{2b1b}\u{fe0f}\n"
    );
}

#[test]
fn render_after_opening_center() {
    let mut ms = MineSweeper::new(3, 3, 0).unwrap();
    match ms.open((1, 1)) {
        Ok(OpenResult::NoMine(_)) => {}
        other => panic!("expected a safe reveal, got {:?}", other),
    }
    let u = "\u{2b1b}\u{fe0f}";
    let expected = format!("{u}{u}{u}\n{u} 0 {u}\n{u}{u}{u}\n");
    assert_eq!(ms.render(), expected);
}

#[test]
fn render_opened_mine_and_counts() {
    let mut ms = MineSweeper::new(2, 1, 2).unwrap();
    ms.open((0, 0)).unwrap();
    assert_eq!(ms.render(), "\u{1f4a3}\u{2b1b}\u{fe0f}\n");
    ms.open((1, 0)).unwrap();
    assert_eq!(ms.render(), "\u{1f4a3}\u{1f4a3}\n");
}

#[test]
fn render_single_cell_count() {
    let mut ms = MineSweeper::new(1, 1, 0).unwrap();
    ms.open((0, 0)).unwrap();
    assert_eq!(ms.render(), " 0 \n");
}

#[test]
fn render_is_stable_without_opens() {
    let ms = MineSweeper::new(3, 4, 6).unwrap();
    let first = ms.render();
    let second = ms.render();
    assert_eq!(first, second);
    for x in 0..3 {
        for y in 0..4 {
            assert!(!ms.is_open((x, y)));
        }
    }
}

#[test]
fn new_rejects_empty_grid() {
    assert_eq!(MineSweeper::new(0, 3, 0).err(), Some(BoardError::EmptyBoard));
    assert_eq!(MineSweeper::new(3, 0, 1).err(), Some(BoardError::EmptyBoard));
    assert_eq!(MineSweeper::new(0, 0, 0).err(), Some(BoardError::EmptyBoard));
}

#[test]
fn new_rejects_too_many_mines() {
    assert_eq!(MineSweeper::new(2, 2, 5).err(), Some(BoardError::TooManyMines));
    assert_eq!(MineSweeper::new(1, 1, 2).err(), Some(BoardError::TooManyMines));
}

#[test]
fn open_rejects_out_of_bounds() {
    let mut ms = MineSweeper::new(2, 2, 0).unwrap();
    let before = ms.render();
    assert_eq!(ms.open((2, 0)), Err(BoardError::OutOfBounds));
    assert_eq!(ms.open((0, 2)), Err(BoardError::OutOfBounds));
    assert_eq!(ms.open((9, 9)), Err(BoardError::OutOfBounds));
    assert_eq!(ms.render(), before);
}

#[test]
fn mines_lie_on_the_grid() {
    // Placement draws random cells; whatever was drawn must lie on the grid
    // and amount to exactly the requested number of mines.
    for _ in 0..20 {
        let ms = MineSweeper::new(5, 4, 7).unwrap();
        assert_eq!(ms.width(), 5);
        assert_eq!(ms.height(), 4);
        let mut found = 0;
        for x in 0..5 {
            for y in 0..4 {
                if ms.is_mine((x, y)) {
                    found += 1;
                }
            }
        }
        assert_eq!(found, 7);
    }
}
