use engine::input::KeyRange;

fn keys(r: &KeyRange) -> Vec<i32> {
    let mut it = r.iter();
    let mut out = Vec::new();
    while let Some(k) = it.next() {
        out.push(k);
    }
    out
}

#[test]
fn ranges_are_sorted_and_merged() {
    let r = KeyRange::new(vec![10..12, 1..3, 2..5, 20..20, 5..7, 30..25]);
    assert_eq!(r.0, vec![1..7, 10..12]);
}

#[test]
fn nested_and_equal_ranges_merge() {
    let r = KeyRange::new(vec![3..9, 4..5, 3..9, 0..1]);
    assert_eq!(r.0, vec![0..1, 3..9]);
}

#[test]
fn empty_input_gives_empty_set() {
    assert!(KeyRange::new(vec![]).0.is_empty());
    assert!(KeyRange::new(vec![4..4, 9..2]).0.is_empty());
}

#[test]
fn iteration_yields_every_key_in_order() {
    let r = KeyRange::new(vec![65..68, 32..33, 48..50]);
    assert_eq!(keys(&r), vec![32, 48, 49, 65, 66, 67]);
    assert!(keys(&KeyRange::new(vec![])).is_empty());
}

#[test]
fn extreme_keys() {
    let r = KeyRange::new(vec![i32::MIN..i32::MIN + 2, i32::MAX - 1..i32::MAX]);
    assert_eq!(keys(&r), vec![i32::MIN, i32::MIN + 1, i32::MAX - 1]);
}
