use engine::overlay::arena::{Overlay, OverlayError, Upload};
use engine::overlay::geometry::{
    eval_term, resolve_rect, Layout, Point, Rect, Rgba, Term, WindowParams, RATIO_ONE,
};

fn term(w: i32, h: i32, px: i32) -> Term {
    Term { w, h, px }
}

fn params_at(pos: Layout, size: Layout) -> WindowParams {
    let mut p = WindowParams::default();
    p.pos = pos;
    p.size = size;
    p
}

#[test]
/// Looking a window up twice gives the same window
fn window_handle_eq() {
    let params = WindowParams::default();
    let mut ovl = Overlay::new(800, 600);

    let wnd_root = ovl.make_window("wnd_root", params);
    assert_eq!(wnd_root, wnd_root);

    let wnd1_0 = ovl.make_window("wnd1", params);
    ovl.attach(wnd_root, wnd1_0).unwrap();

    let wnd1_1 = ovl.child(wnd_root, "wnd1").unwrap();
    let wnd1_2 = ovl.child(wnd_root, "wnd1").unwrap();

    assert_eq!(wnd1_0, wnd1_1);
    assert_eq!(wnd1_1, wnd1_2);
}

#[test]
/// Attaching windows and finding windows by path
fn window_handle_paths() {
    let params = WindowParams::default();
    let mut ovl = Overlay::new(800, 600);

    let wnd_root = ovl.make_window("wnd_root", params);
    let wnd1 = ovl.make_window("wnd1", params);
    let wnd2 = ovl.make_window("wnd2", params);
    let wnd3 = ovl.make_window("wnd3", params);

    ovl.attach(wnd1, wnd3).unwrap();
    ovl.attach(wnd_root, wnd1).unwrap();
    ovl.attach(wnd_root, wnd2).unwrap();

    assert_eq!(wnd1, ovl.child(wnd_root, "wnd1").unwrap());
    assert_eq!(wnd2, ovl.child(wnd_root, "wnd2").unwrap());
    assert_eq!(wnd3, ovl.child(wnd_root, "wnd1/wnd3").unwrap());
    assert_eq!(wnd3, ovl.child(wnd1, "wnd3").unwrap());

    assert!(ovl.child(wnd_root, "foo").is_none());
    assert!(ovl.child(wnd_root, "wnd3").is_none());
    assert!(ovl.child(wnd1, "wnd2").is_none());
}

#[test]
fn child_path_edge_cases() {
    let params = WindowParams::default();
    let mut ovl = Overlay::new(800, 600);
    let a = ovl.make_window("a", params);
    let b = ovl.make_window("b", params);
    ovl.attach(ovl.root(), a).unwrap();
    ovl.attach(a, b).unwrap();
    assert_eq!(ovl.child(ovl.root(), "a/b"), Some(b));
    assert_eq!(ovl.child(ovl.root(), "a/b/"), None);
    assert_eq!(ovl.child(ovl.root(), "a//b"), None);
    assert_eq!(ovl.child(ovl.root(), ""), None);
    assert_eq!(ovl.child(ovl.root(), "b"), None);
}

#[test]
fn parent_relative_resolution() {
    let mut ovl = Overlay::new(800, 600);
    let parent = ovl.make_window(
        "parent",
        params_at(
            Layout { x: term(0, 0, 10), y: term(0, 0, 20) },
            Layout { x: term(0, 0, 100), y: term(0, 0, 50) },
        ),
    );
    let half = RATIO_ONE as i32 / 2;
    let fifth = RATIO_ONE as i32 / 5;
    let child = ovl.make_window(
        "child",
        params_at(
            Layout { x: term(half, 0, 0), y: term(0, half, 0) },
            Layout { x: term(fifth, 0, 0), y: term(0, fifth, 0) },
        ),
    );
    ovl.attach(ovl.root(), parent).unwrap();
    ovl.attach(parent, child).unwrap();
    ovl.update();
    assert_eq!(ovl.window(parent).rect, Rect { pos: Point { x: 10, y: 20 }, size: Point { x: 100, y: 50 } });
    assert_eq!(ovl.window(child).rect, Rect { pos: Point { x: 60, y: 45 }, size: Point { x: 20, y: 10 } });
}

#[test]
fn end_to_end_two_columns() {
    let mut ovl = Overlay::new(800, 600);
    let fifth = RATIO_ONE as i32 / 5;
    let one = RATIO_ONE as i32;
    let a = ovl.make_window(
        "a",
        params_at(
            Layout { x: term(0, 0, 0), y: term(0, 0, 0) },
            Layout { x: term(fifth, 0, 0), y: term(0, one, 0) },
        ),
    );
    ovl.attach(ovl.root(), a).unwrap();
    let b = ovl.make_window(
        "b",
        params_at(
            Layout { x: term(fifth, 0, 0), y: term(0, 0, 0) },
            Layout { x: term(one - fifth, 0, 0), y: term(0, one, 0) },
        ),
    );
    ovl.attach(ovl.root(), b).unwrap();
    assert!(matches!(ovl.update(), Upload::Full));
    assert_eq!(ovl.vertex_buffer().len(), 12);
    assert_eq!(ovl.index_buffer().len(), 18);
    assert_eq!(ovl.window(a).rect.size, Point { x: 160, y: 600 });
    assert_eq!(ovl.window(b).rect.size, Point { x: 640, y: 600 });
    assert_eq!(ovl.window(b).rect.pos, Point { x: 160, y: 0 });
    assert_eq!(
        *ovl.index_buffer(),
        vec![0, 1, 2, 0, 2, 3, 4, 5, 6, 4, 6, 7, 8, 9, 10, 8, 10, 11]
    );
    let root = ovl.window(0);
    assert_eq!((root.vertex_begin, root.vertex_end), (0, 12));
    assert_eq!((ovl.window(a).vertex_begin, ovl.window(a).vertex_end), (4, 8));
    assert_eq!((ovl.window(b).vertex_begin, ovl.window(b).vertex_end), (8, 12));
    // the quad of b: upper left, upper right, bottom right, bottom left
    let v = ovl.vertex_buffer();
    assert_eq!(v[8].pos, Point { x: 160, y: 0 });
    assert_eq!(v[9].pos, Point { x: 800, y: 0 });
    assert_eq!(v[10].pos, Point { x: 800, y: 600 });
    assert_eq!(v[11].pos, Point { x: 160, y: 600 });
}

#[test]
fn pre_order_ranges_are_contiguous() {
    let params = WindowParams::default();
    let mut ovl = Overlay::new(100, 100);
    let a = ovl.make_window("a", params);
    let a1 = ovl.make_window("a1", params);
    let a2 = ovl.make_window("a2", params);
    let b = ovl.make_window("b", params);
    ovl.attach(a, a1).unwrap();
    ovl.attach(a, a2).unwrap();
    ovl.attach(ovl.root(), a).unwrap();
    ovl.attach(ovl.root(), b).unwrap();
    ovl.update();
    let range = |i: usize| (ovl.window(i).vertex_begin, ovl.window(i).vertex_end);
    assert_eq!(range(0), (0, 20));
    assert_eq!(range(a), (4, 16));
    assert_eq!(range(a1), (8, 12));
    assert_eq!(range(a2), (12, 16));
    assert_eq!(range(b), (16, 20));
}

#[test]
fn second_update_uploads_nothing() {
    let mut ovl = Overlay::new(800, 600);
    let a = ovl.make_window("a", WindowParams::default());
    ovl.attach(ovl.root(), a).unwrap();
    assert!(matches!(ovl.update(), Upload::Full));
    assert!(matches!(ovl.update(), Upload::Nothing));
    assert!(matches!(ovl.update(), Upload::Nothing));
}

#[test]
fn modify_uploads_the_changed_range() {
    let mut ovl = Overlay::new(800, 600);
    let a = ovl.make_window("a", WindowParams::default());
    let b = ovl.make_window("b", WindowParams::default());
    ovl.attach(ovl.root(), a).unwrap();
    ovl.attach(ovl.root(), b).unwrap();
    ovl.update();
    let mut p = WindowParams::default();
    p.color[0] = Rgba { r: 255, g: 0, b: 0, a: 255 };
    ovl.modify(b, p).unwrap();
    match ovl.update() {
        Upload::Partial(ranges) => assert_eq!(ranges, vec![(8, 12)]),
        _ => panic!("expected a partial upload"),
    }
    assert_eq!(ovl.vertex_buffer()[8].color, Rgba { r: 255, g: 0, b: 0, a: 255 });
    assert!(matches!(ovl.update(), Upload::Nothing));
}

#[test]
fn modify_of_a_parent_moves_its_children() {
    let mut ovl = Overlay::new(800, 600);
    let a = ovl.make_window("a", WindowParams::default());
    let half = RATIO_ONE as i32 / 2;
    let c = ovl.make_window(
        "c",
        params_at(
            Layout { x: term(half, 0, 0), y: term(0, 0, 0) },
            Layout { x: term(half, 0, 0), y: term(0, half, 0) },
        ),
    );
    ovl.attach(ovl.root(), a).unwrap();
    ovl.attach(a, c).unwrap();
    ovl.update();
    assert_eq!(ovl.window(c).rect.size, Point { x: 400, y: 300 });
    let quarter = RATIO_ONE as i32 / 4;
    ovl.modify(
        a,
        params_at(
            Layout { x: term(0, 0, 0), y: term(0, 0, 0) },
            Layout { x: term(quarter, 0, 0), y: term(0, quarter, 0) },
        ),
    )
    .unwrap();
    ovl.update();
    assert_eq!(ovl.window(a).rect.size, Point { x: 200, y: 150 });
    assert_eq!(ovl.window(c).rect, Rect { pos: Point { x: 100, y: 0 }, size: Point { x: 100, y: 75 } });
}

#[test]
fn modify_of_a_missing_window_is_refused() {
    let mut ovl = Overlay::new(800, 600);
    assert_eq!(
        ovl.modify(3, WindowParams::default()),
        Err(OverlayError::NoSuchWindow { index: 3 })
    );
}

#[test]
fn hidden_window_is_degenerate() {
    let mut ovl = Overlay::new(800, 600);
    let mut p = params_at(
        Layout { x: term(0, 0, 30), y: term(0, 0, 40) },
        Layout { x: term(0, 0, 50), y: term(0, 0, 60) },
    );
    p.shown = false;
    let a = ovl.make_window("a", p);
    ovl.attach(ovl.root(), a).unwrap();
    ovl.update();
    assert_eq!(ovl.window(a).rect, Rect { pos: Point { x: -1, y: -1 }, size: Point { x: 0, y: 0 } });
    for k in 4..8 {
        assert_eq!(ovl.vertex_buffer()[k].pos, Point { x: -1, y: -1 });
    }
}

#[test]
fn attach_rejects_double_parenting() {
    let params = WindowParams::default();
    let mut ovl = Overlay::new(800, 600);
    let left = ovl.make_window("left", params);
    let right = ovl.make_window("right", params);
    let c = ovl.make_window("c", params);
    ovl.attach(left, c).unwrap();
    assert_eq!(ovl.attach(right, c), Err(OverlayError::AlreadyAttached { child: c, parent: left }));
    assert_eq!(ovl.window(right).children, Vec::<usize>::new());
    assert_eq!(ovl.window(left).children, vec![c]);
    assert_eq!(ovl.window(c).parent, Some(left));
}

#[test]
fn attach_rejects_duplicate_sibling_names() {
    let params = WindowParams::default();
    let mut ovl = Overlay::new(800, 600);
    let first = ovl.make_window("foo", params);
    let second = ovl.make_window("foo", params);
    ovl.attach(ovl.root(), first).unwrap();
    assert_eq!(
        ovl.attach(ovl.root(), second),
        Err(OverlayError::NameTaken { child: second, sibling: first })
    );
    assert_eq!(ovl.window(0).children, vec![first]);
    assert_eq!(ovl.window(second).parent, None);
}

#[test]
fn attach_rejects_cycles_and_bad_indices() {
    let params = WindowParams::default();
    let mut ovl = Overlay::new(800, 600);
    let a = ovl.make_window("a", params);
    let b = ovl.make_window("b", params);
    ovl.attach(a, b).unwrap();
    assert_eq!(ovl.attach(b, a), Err(OverlayError::WouldCycle { child: a, parent: b }));
    assert_eq!(ovl.attach(a, a), Err(OverlayError::WouldCycle { child: a, parent: a }));
    assert_eq!(ovl.attach(b, 0), Err(OverlayError::WouldCycle { child: 0, parent: b }));
    assert_eq!(ovl.attach(9, a), Err(OverlayError::NoSuchWindow { index: 9 }));
    assert_eq!(ovl.attach(a, 9), Err(OverlayError::NoSuchWindow { index: 9 }));
}

#[test]
fn detach_and_reattach() {
    let params = WindowParams::default();
    let mut ovl = Overlay::new(800, 600);
    let a = ovl.make_window("a", params);
    let b = ovl.make_window("b", params);
    let c = ovl.make_window("c", params);
    ovl.attach(ovl.root(), a).unwrap();
    ovl.attach(ovl.root(), b).unwrap();
    ovl.attach(ovl.root(), c).unwrap();
    ovl.update();
    assert_eq!(ovl.detach(a, b), Err(OverlayError::NotAChild { child: b, parent: a }));
    assert_eq!(ovl.detach(0, 7), Err(OverlayError::NoSuchWindow { index: 7 }));
    ovl.detach(0, b).unwrap();
    assert_eq!(ovl.window(0).children, vec![a, c]);
    assert_eq!(ovl.window(b).parent, None);
    assert!(matches!(ovl.update(), Upload::Full));
    assert_eq!(ovl.vertex_buffer().len(), 12);
    assert_eq!((ovl.window(c).vertex_begin, ovl.window(c).vertex_end), (8, 12));
    ovl.attach(a, b).unwrap();
    assert!(matches!(ovl.update(), Upload::Full));
    assert_eq!((ovl.window(a).vertex_begin, ovl.window(a).vertex_end), (4, 12));
    assert_eq!((ovl.window(b).vertex_begin, ovl.window(b).vertex_end), (8, 12));
}

#[test]
fn modify_of_a_detached_window_lists_no_range() {
    let params = WindowParams::default();
    let mut ovl = Overlay::new(800, 600);
    let a = ovl.make_window("a", params);
    ovl.update();
    ovl.modify(a, params).unwrap();
    match ovl.update() {
        Upload::Partial(ranges) => assert!(ranges.is_empty()),
        _ => panic!("expected a partial upload"),
    }
}

#[test]
fn term_rounds_down() {
    assert_eq!(eval_term(term(-5000, 0, 0), 0, 101, 0), -51);
    assert_eq!(eval_term(term(5000, 0, 0), 0, 101, 0), 50);
    assert_eq!(eval_term(term(0, 2500, 3), 10, 0, 8), 15);
    assert_eq!(eval_term(term(0, 0, i32::MAX), i32::MAX as i64, 0, 0), i32::MAX as i64);
}

#[test]
fn root_takes_pixel_terms() {
    let p = params_at(
        Layout { x: term(5000, 5000, 7), y: term(1, 1, 8) },
        Layout { x: term(9, 9, 640), y: term(9, 9, 480) },
    );
    assert_eq!(
        resolve_rect(&p, None),
        Rect { pos: Point { x: 7, y: 8 }, size: Point { x: 640, y: 480 } }
    );
}

#[test]
fn full_paths_join_names() {
    let params = WindowParams::default();
    let mut ovl = Overlay::new(800, 600);
    let a = ovl.make_window("a", params);
    let b = ovl.make_window("b", params);
    let c = ovl.make_window("c", params);
    ovl.attach(a, b).unwrap();
    ovl.attach(b, c).unwrap();
    assert_eq!(ovl.full_path(c), "a/b/c");
    assert_eq!(ovl.full_path(a), "a");
    ovl.attach(ovl.root(), a).unwrap();
    assert_eq!(ovl.full_path(c), "/a/b/c");
    assert_eq!(ovl.full_path(0), "");
}

#[test]
fn new_overlay_is_laid_out() {
    let mut ovl = Overlay::new(800, 600);
    let root = ovl.window(ovl.root());
    assert_eq!(root.rect, Rect { pos: Point { x: 0, y: 0 }, size: Point { x: 800, y: 600 } });
    assert_eq!((root.vertex_begin, root.vertex_end), (0, 4));
    assert_eq!(ovl.vertex_buffer().len(), 4);
    assert_eq!(ovl.vertex_buffer()[2].pos, Point { x: 800, y: 600 });
    assert_eq!(*ovl.index_buffer(), vec![0, 1, 2, 0, 2, 3]);
    assert!(matches!(ovl.update(), Upload::Nothing));
}

#[test]
fn modify_leaves_buffers_until_update() {
    let mut ovl = Overlay::new(800, 600);
    let a = ovl.make_window("a", WindowParams::default());
    ovl.attach(ovl.root(), a).unwrap();
    ovl.update();
    let before = ovl.vertex_buffer().clone();
    let mut p = WindowParams::default();
    p.shown = false;
    ovl.modify(a, p).unwrap();
    assert_eq!(*ovl.vertex_buffer(), before);
    assert_eq!((ovl.window(a).vertex_begin, ovl.window(a).vertex_end), (4, 8));
    ovl.update();
    assert_eq!(ovl.vertex_buffer()[4].pos, Point { x: -1, y: -1 });
    assert_eq!(ovl.vertex_buffer()[0], before[0]);
}

#[test]
fn update_leaves_detached_windows_alone() {
    let mut ovl = Overlay::new(800, 600);
    let a = ovl.make_window("a", WindowParams::default());
    let b = ovl.make_window("b", WindowParams::default());
    ovl.attach(ovl.root(), a).unwrap();
    ovl.attach(a, b).unwrap();
    ovl.update();
    ovl.detach(ovl.root(), a).unwrap();
    let (rect, range) = (ovl.window(b).rect, (ovl.window(b).vertex_begin, ovl.window(b).vertex_end));
    ovl.update();
    assert_eq!(ovl.vertex_buffer().len(), 4);
    assert_eq!(ovl.window(b).rect, rect);
    assert_eq!((ovl.window(b).vertex_begin, ovl.window(b).vertex_end), range);
}
