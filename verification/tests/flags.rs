use drift::interface::flag::{ModernFlags, ALL, DELETE, EXECUTE, NONE, READ, WRITE};
use drift::interface::Modern;

#[test]
fn new_selector_is_empty() {
    let m = Modern::new();
    assert_eq!(m.bits(), NONE);
    assert!(m.has(NONE));
    assert!(!m.has(READ));
}

#[test]
fn default_selector_is_empty() {
    let m = Modern::default();
    assert_eq!(m.bits(), 0);
}

#[test]
fn added_flags_are_held() {
    let mut m = Modern::new();
    m.add(READ);
    m.add(EXECUTE);
    assert_eq!(m.bits(), 5);
    assert!(m.has(READ));
    assert!(m.has(EXECUTE));
    assert!(m.has(READ | EXECUTE));
    assert!(!m.has(WRITE));
    assert!(!m.has(READ | WRITE));
}

#[test]
fn unknown_bits_are_ignored() {
    let mut m = Modern::new();
    m.add(16);
    m.add(READ | 32);
    assert_eq!(m.bits(), 0);
    m.add(ALL);
    assert_eq!(m.bits(), 15);
    assert!(!m.has(16));
    assert!(!m.has(ALL | 16));
}

#[test]
fn adding_twice_changes_nothing() {
    let mut m = Modern::new();
    m.add(WRITE);
    m.add(WRITE);
    assert_eq!(m.bits(), WRITE);
}

#[test]
fn adding_commutes() {
    let mut a = Modern::new();
    a.add(DELETE);
    a.add(WRITE);
    let mut b = Modern::new();
    b.add(WRITE);
    b.add(DELETE);
    assert_eq!(a.bits(), b.bits());
    assert_eq!(a.bits(), 10);
}

#[test]
fn adding_keeps_earlier_flags() {
    let mut m = Modern::new();
    m.add(READ | WRITE);
    m.add(DELETE);
    assert!(m.has(READ | WRITE));
    assert!(m.has(DELETE));
}

#[test]
fn repr_shows_four_binary_digits() {
    let mut m = Modern::new();
    assert_eq!(m.__repr__(), "Modern(bits=0b0000)");
    m.add(READ);
    m.add(EXECUTE);
    assert_eq!(m.__repr__(), "Modern(bits=0b0101)");
    m.add(ALL);
    assert_eq!(m.__repr__(), "Modern(bits=0b1111)");
}

#[test]
fn flag_sets_from_bits() {
    assert!(ModernFlags::from_bits(16).is_none());
    let f = ModernFlags::from_bits(9).unwrap();
    assert_eq!(f.bits(), 9);
    let mut g = ModernFlags::none();
    g.set(f);
    assert!(g.contains(ModernFlags::from_bits(8).unwrap()));
    assert!(!g.contains(ModernFlags::from_bits(2).unwrap()));
    assert_eq!(ModernFlags::default().bits(), 0);
}
