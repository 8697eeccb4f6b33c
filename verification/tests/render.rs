use matgol::grid::MatGol;
use matgol::render::glyph;

#[test]
fn glyph_table_has_blank_upper_lower_full() {
    assert_eq!(glyph(0, 0), ' ');
    assert_eq!(glyph(1, 0), '\u{2580}');
    assert_eq!(glyph(0, 1), '\u{2584}');
    assert_eq!(glyph(1, 1), '\u{2588}');
}

#[test]
fn render_top_dead_bottom_alive_is_lower_half() {
    let grid = MatGol::empty(2, 1).live(1, 0);
    assert_eq!(grid.render(), vec![vec!['▄']]);
}

#[test]
fn render_both_alive_is_full_block() {
    let grid = MatGol::empty(2, 1).live(0, 0).live(1, 0);
    assert_eq!(grid.render(), vec![vec!['█']]);
}

#[test]
fn render_both_dead_is_blank() {
    let grid = MatGol::empty(2, 1);
    assert_eq!(grid.render(), vec![vec![' ']]);
}

#[test]
fn render_top_alive_bottom_dead_is_upper_half() {
    let grid = MatGol::empty(2, 1).live(0, 0);
    assert_eq!(grid.render(), vec![vec!['▀']]);
}

#[test]
fn render_has_one_glyph_per_column_and_one_line_per_row_pair() {
    let grid = MatGol::empty(4, 4)
        .live(0, 1)
        .live(1, 2)
        .live(0, 3)
        .live(1, 3)
        .live(2, 0)
        .live(3, 0)
        .live(3, 1);
    assert_eq!(
        grid.render(),
        vec![vec![' ', '▀', '▄', '█'], vec!['█', '▄', ' ', ' ']]
    );
}

#[test]
fn render_drops_the_last_row_of_an_odd_grid() {
    let grid = MatGol::empty(3, 2).live(0, 0).live(2, 0).live(2, 1);
    let lines = grid.render();
    assert_eq!(lines.len(), 1);
    assert_eq!(lines, vec![vec!['▀', ' ']]);
    let five = MatGol::empty(5, 1).live(1, 0).live(2, 0).live(3, 0).live(4, 0);
    assert_eq!(five.render(), vec![vec!['▄'], vec!['█']]);
}

#[test]
fn render_of_a_single_row_is_empty() {
    let grid = MatGol::empty(1, 3).live(0, 0).live(0, 1).live(0, 2);
    assert_eq!(grid.render(), Vec::<Vec<char>>::new());
}

#[test]
fn render_of_a_grid_without_cells() {
    assert_eq!(MatGol::empty(0, 0).render(), Vec::<Vec<char>>::new());
    assert_eq!(MatGol::empty(0, 4).render(), Vec::<Vec<char>>::new());
    assert_eq!(MatGol::empty(4, 0).render(), vec![Vec::<char>::new(), Vec::<char>::new()]);
}

#[test]
fn render_line_count_is_half_the_rows_rounded_down() {
    for rows in 0..9usize {
        let lines = MatGol::empty(rows, 3).render();
        assert_eq!(lines.len(), rows / 2);
        for line in &lines {
            assert_eq!(line.len(), 3);
        }
    }
}

#[test]
fn render_leaves_the_grid_as_it_was() {
    let grid = MatGol::empty(4, 2).live(1, 1).live(2, 0);
    let before = grid.clone();
    let first = grid.render();
    let second = grid.render();
    assert_eq!(grid, before);
    assert_eq!(first, second);
}

#[test]
fn to_text_writes_one_line_per_diagonal_cell() {
    let grid = MatGol::empty(2, 2).live(0, 0).live(0, 1);
    assert_eq!(grid.to_text(), "♦.\n..\n");
    let grid = MatGol::empty(3, 3).live(1, 1).live(2, 2).live(2, 0);
    assert_eq!(grid.to_text(), "..\n♦.\n♦.\n");
}

#[test]
fn to_text_stops_at_the_shorter_dimension() {
    let tall = MatGol::empty(4, 2).live(1, 1).live(3, 1);
    assert_eq!(tall.to_text(), "..\n♦.\n");
    let wide = MatGol::empty(1, 5).live(0, 0).live(0, 4);
    assert_eq!(wide.to_text(), "♦.\n");
}

#[test]
fn to_text_of_a_grid_without_cells_is_empty() {
    assert_eq!(MatGol::empty(0, 0).to_text(), "");
    assert_eq!(MatGol::empty(0, 3).to_text(), "");
    assert_eq!(MatGol::empty(3, 0).to_text(), "");
}
