use gish::ui::{band_can_be_cut, band_percents, box_from_columns, box_percents, middle_part, rows_can_be_cut, lies_within, pane_border, pane_cursor, search_cursor, search_rect, Area, PaneBorder};

#[test]
fn search_box_in_the_middle() {
    let screen = Area { x: 0, y: 0, width: 100, height: 50 };
    assert_eq!(search_rect(60, 100, screen), Some(Area { x: 20, y: 0, width: 60, height: 50 }));
}

#[test]
fn search_box_takes_its_share_of_the_width() {
    let screen = Area { x: 0, y: 0, width: 100, height: 50 };
    let a = search_rect(60, 6, screen).unwrap();
    assert_eq!((a.x, a.width), (20, 60));
    assert!(a.y + a.height <= 50);
}

#[test]
fn search_box_that_cannot_be_cut() {
    let screen = Area { x: 0, y: 0, width: 65535, height: 10 };
    assert_eq!(search_rect(60, 100, screen), None);
}

#[test]
fn pane_borders() {
    assert_eq!(pane_border(0, 0), PaneBorder::Plain);
    assert_eq!(pane_border(3, 0), PaneBorder::Left);
    assert_eq!(pane_border(0, 2), PaneBorder::Top);
    assert_eq!(pane_border(3, 2), PaneBorder::Top);
}

#[test]
fn cursors() {
    let area = Area { x: 20, y: 10, width: 60, height: 3 };
    assert_eq!(search_cursor(area, 0), (21, 11));
    assert_eq!(search_cursor(area, 4), (25, 11));
    assert_eq!(search_cursor(area, 65536 + 4), (25, 11));
    assert_eq!(pane_cursor((2, 3), (5, 1), 7, 7), Some((7, 4)));
    assert_eq!(pane_cursor((2, 3), (5, 1), 6, 7), None);
}

#[test]
fn layout_checks() {
    let band = Area { x: 0, y: 10, width: 100, height: 3 };
    assert!(band_can_be_cut(60, band));
    assert!(!band_can_be_cut(60, Area { x: 0, y: 0, width: 65535, height: 3 }));
    assert!(!band_can_be_cut(60, Area { x: 0, y: 65534, width: 10, height: 3 }));
    let screen = Area { x: 0, y: 0, width: 100, height: 50 };
    assert!(lies_within(Area { x: 20, y: 10, width: 60, height: 3 }, screen));
    assert!(!lies_within(Area { x: 50, y: 10, width: 60, height: 3 }, screen));
    assert!(!lies_within(Area { x: 0, y: 48, width: 10, height: 3 }, screen));
}

#[test]
fn search_box_pieces() {
    assert_eq!(band_percents(6), vec![47, 6, 47]);
    assert_eq!(band_percents(100), vec![0, 100, 0]);
    assert_eq!(box_percents(60), vec![20, 60, 20]);
    assert_eq!(box_percents(51), vec![24, 51, 24]);
    let screen = Area { x: 0, y: 0, width: 100, height: 50 };
    assert!(rows_can_be_cut(6, screen));
    assert!(!rows_can_be_cut(6, Area { x: 1, y: 0, width: 65535, height: 50 }));
    assert!(!rows_can_be_cut(100, Area { x: 0, y: 0, width: 10, height: 700 }));
    let parts = vec![
        Area { x: 0, y: 0, width: 20, height: 3 },
        Area { x: 20, y: 0, width: 60, height: 3 },
        Area { x: 80, y: 0, width: 20, height: 3 },
    ];
    assert_eq!(middle_part(&parts), Area { x: 20, y: 0, width: 60, height: 3 });
    assert_eq!(box_from_columns(&parts, screen), Some(Area { x: 20, y: 0, width: 60, height: 3 }));
    assert_eq!(box_from_columns(&parts, Area { x: 0, y: 0, width: 50, height: 50 }), None);
}
