use engine::event::{Event, ListenerList};

#[test]
fn listeners_keep_subscription_order() {
    let mut list = ListenerList::new();
    list.on("a");
    list.on("b");
    list.on("c");
    assert_eq!(list.len(), 3);
    assert_eq!((*list.get(0), *list.get(2)), ("a", "c"));
    list.retain_alive(&vec![true, false, true]);
    assert_eq!(list.len(), 2);
    assert_eq!((*list.get(0), *list.get(1)), ("a", "c"));
    list.on("d");
    list.retain_alive(&vec![false, true, true]);
    assert_eq!((*list.get(0), *list.get(1)), ("c", "d"));
}

#[test]
fn events_compare_by_name() {
    assert_eq!(Event("move"), Event("move"));
    assert_ne!(Event("move"), Event("rotate"));
}
