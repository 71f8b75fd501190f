use engine::scene::RenderQueue;

fn order(q: &RenderQueue<&'static str>) -> Vec<&'static str> {
    (0..q.len()).map(|i| *q.get(i)).collect()
}

#[test]
fn lower_priorities_draw_first_and_ties_keep_insertion_order() {
    let mut q = RenderQueue::new();
    q.add(5, "a");
    q.add(1, "b");
    q.add(5, "c");
    q.add(0, "d");
    q.add(9, "e");
    q.add(1, "f");
    assert_eq!(order(&q), vec!["d", "b", "f", "a", "c", "e"]);
}

#[test]
fn dead_entries_are_dropped_in_order() {
    let mut q = RenderQueue::new();
    for (p, name) in [(1, "a"), (2, "b"), (3, "c"), (4, "d")] {
        q.add(p, name);
    }
    q.retain_alive(&vec![true, false, true, false]);
    assert_eq!(order(&q), vec!["a", "c"]);
    q.add(2, "x");
    assert_eq!(order(&q), vec!["a", "x", "c"]);
    q.retain_alive(&vec![false, false, false]);
    assert_eq!(q.len(), 0);
}
