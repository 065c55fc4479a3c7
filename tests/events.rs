use regular_table::events::{nearest_cell, on_click, Ancestor, RegularViewEventModel, ScrollGeometry, ScrollTo};

fn geometry(scroll_top: i32) -> ScrollGeometry {
    ScrollGeometry {
        client_width: 100,
        client_height: 100,
        scroll_top,
        scroll_left: 0,
        scroll_height: 1000,
        panel_height: 1000,
        panel_width: 50,
    }
}

#[test]
fn wheel_scrolls_within_range() {
    let e = RegularViewEventModel::new();
    assert_eq!(e.on_mousewheel(5, 30, 1, geometry(10)), Some(ScrollTo { top: 40, left: 1 }));
    assert_eq!(e.on_mousewheel(0, 5000, 1, geometry(10)), Some(ScrollTo { top: 900, left: 0 }));
}

#[test]
fn wheel_at_edges_is_left_to_page() {
    let e = RegularViewEventModel::new();
    assert_eq!(e.on_mousewheel(0, -30, -1, geometry(0)), None);
    assert_eq!(e.on_mousewheel(0, 30, 1, geometry(900)), None);
    assert!(e.on_mousewheel(0, 0, 0, geometry(900)).is_some());
}

#[test]
fn touch_drag_scrolls() {
    let mut e = RegularViewEventModel::new();
    e.on_touchstart(200, 300);
    assert_eq!(e.on_touchmove(geometry(10), 190, 250), ScrollTo { top: 60, left: 1 });
}

#[test]
fn click_walks_up_to_cell() {
    let inside = |is_cell| Ancestor { is_cell, inside: true };
    let chain = vec![inside(false), inside(false), inside(true)];
    assert_eq!(nearest_cell(&chain), Some(2));
    assert_eq!(on_click(0, &chain), Some(2));
    assert_eq!(on_click(1, &chain), None);
    let leaves = vec![inside(false), Ancestor { is_cell: true, inside: false }];
    assert_eq!(nearest_cell(&leaves), None);
    assert_eq!(nearest_cell(&vec![inside(false)]), None);
}
