use engine::input::mask::KEY_CODE_COUNT;
use engine::input::{KeyItem, KeyMask};

#[test]
fn mask_from_keys_and_ranges() {
    let m = KeyMask::new(&[KeyItem::Key(32), KeyItem::Range(65, 67), KeyItem::Key(257)]);
    assert_eq!(m.keys(), vec![32, 65, 66, 67, 257]);
    assert!(m.get(66));
    assert!(!m.get(68));
}

#[test]
fn set_and_clear_bits() {
    let mut m = KeyMask::new(&[]);
    assert!(m.keys().is_empty());
    m.set_range(290, 301, true);
    m.set(295, false);
    m.set(0, true);
    m.set(KEY_CODE_COUNT as i32 - 1, true);
    assert_eq!(m.keys(), vec![0, 290, 291, 292, 293, 294, 296, 297, 298, 299, 300, 301, 348]);
    m.set_range(10, 5, true);
    assert!(!m.get(7));
}
