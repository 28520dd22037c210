use rogger::layout::{create_layout, grid_dims, Rect};

fn rect(x: u16, y: u16, width: u16, height: u16) -> Rect {
    Rect { x, y, width, height }
}

#[test]
fn grid_dimensions() {
    assert_eq!(grid_dims(1), (1, 1));
    assert_eq!(grid_dims(2), (2, 1));
    assert_eq!(grid_dims(3), (2, 2));
    assert_eq!(grid_dims(4), (2, 2));
    assert_eq!(grid_dims(5), (3, 2));
    assert_eq!(grid_dims(9), (3, 3));
    assert_eq!(grid_dims(10), (4, 3));
}

#[test]
fn single_pane_takes_the_whole_area() {
    let area = rect(1, 2, 80, 24);
    let cells = create_layout(area, 1);
    assert_eq!(cells, vec![rect(1, 2, 80, 24)]);
}

#[test]
fn four_panes_tile_in_a_square() {
    let area = rect(0, 0, 100, 100);
    let cells = create_layout(area, 4);
    assert_eq!(
        cells,
        vec![
            rect(0, 0, 50, 50),
            rect(50, 0, 50, 50),
            rect(0, 50, 50, 50),
            rect(50, 50, 50, 50),
        ]
    );
}

#[test]
fn trailing_cells_are_discarded() {
    let area = rect(0, 0, 100, 100);
    let cells = create_layout(area, 3);
    assert_eq!(cells.len(), 3);
    assert_eq!(cells[0], rect(0, 0, 50, 50));
    assert_eq!(cells[1], rect(50, 0, 50, 50));
    assert_eq!(cells[2], rect(0, 50, 50, 50));
}

#[test]
fn uneven_sizes_still_tile_exactly() {
    // 5 columns over a width of 7: widths differ by at most one and sum to 7
    let area = rect(0, 0, 7, 9);
    let cells = create_layout(area, 5);
    let (rows, cols) = grid_dims(5);
    assert_eq!((rows, cols), (3, 2));
    // every row spans the full width without gap or overlap
    for row in cells.chunks(cols as usize) {
        let mut x = area.x;
        for c in row {
            assert_eq!(c.x, x);
            x += c.width;
        }
        if row.len() == cols as usize {
            assert_eq!(x, area.x + area.width);
        }
    }
    // rows abut and the grid spans the full height
    assert_eq!(cells[0].y, 0);
    assert_eq!(cells[2].y, cells[0].y + cells[0].height);
    assert_eq!(cells[4].y, cells[2].y + cells[2].height);
    assert_eq!(cells[4].y + cells[4].height, area.y + area.height);
}

#[test]
fn no_panes_no_cells() {
    let cells = create_layout(rect(0, 0, 10, 10), 0);
    assert!(cells.is_empty());
}
