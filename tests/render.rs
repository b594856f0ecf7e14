use invadors::frame::new_frame;
use invadors::render::frame_diff;
use invadors::{NUM_COLS, NUM_ROWS};

#[test]
fn first_frame_writes_every_cell() {
    let blank = new_frame();
    let writes = frame_diff(&blank, &blank, true);
    assert_eq!(writes.len(), NUM_COLS * NUM_ROWS);
    assert_eq!(writes[0], (0, 0, ' '));
    assert_eq!(writes[1], (0, 1, ' '));
    assert_eq!(writes[NUM_ROWS], (1, 0, ' '));
    let mut busy = new_frame();
    busy.set(4, 4, 'A');
    let writes = frame_diff(&blank, &busy, true);
    assert_eq!(writes.len(), NUM_COLS * NUM_ROWS);
    assert_eq!(writes[4 * NUM_ROWS + 4], (4, 4, 'A'));
}

#[test]
fn unchanged_frame_writes_nothing() {
    let mut a = new_frame();
    a.set(1, 2, 'x');
    let mut b = new_frame();
    b.set(1, 2, 'x');
    assert!(frame_diff(&a, &b, false).is_empty());
}

#[test]
fn only_changed_cells_are_written() {
    let last = new_frame();
    let mut curr = new_frame();
    curr.set(7, 3, '|');
    curr.set(2, 9, '*');
    let writes = frame_diff(&last, &curr, false);
    assert_eq!(writes, vec![(2, 9, '*'), (7, 3, '|')]);
    let back = frame_diff(&curr, &last, false);
    assert_eq!(back, vec![(2, 9, ' '), (7, 3, ' ')]);
}

#[test]
fn new_frame_is_blank() {
    let f = new_frame();
    assert_eq!(f.cells.len(), NUM_COLS);
    for col in &f.cells {
        assert_eq!(col.len(), NUM_ROWS);
        assert!(col.iter().all(|c| *c == ' '));
    }
}
