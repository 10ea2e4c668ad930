use critbit::{bit_at, CritBit, Empty, Internal, Leaf};

#[test]
fn verify_bit_at() {
    assert_eq!(bit_at(&1u8, &0u8), false);
    assert_eq!(bit_at(&128u8, &0u8), true);
    assert_eq!(bit_at(&1u8, &7u8), true);
    assert_eq!(bit_at(&128u8, &7u8), false);
}

#[test]
fn empty_len() {
    let t: CritBit<u8, ()> = Empty;
    assert_eq!(t.len(), 0);
}

#[test]
fn empty_contains_key() {
    let t: CritBit<u8, ()> = Empty;
    assert_eq!(t.contains_key(&0u8), false);
    assert_eq!(t.contains_key(&128u8), false);
    assert_eq!(t.contains_key(&255u8), false);
}

#[test]
fn empty_find() {
    let t: CritBit<u8, ()> = Empty;
    assert_eq!(t.find(&0u8), None);
    assert_eq!(t.find(&128u8), None);
    assert_eq!(t.find(&255u8), None);
}

#[test]
fn leaf_len() {
    let t: CritBit<u8, ()> = Leaf(0u8, ());
    assert_eq!(t.len(), 1)
}

#[test]
fn leaf_contains_key() {
    let t: CritBit<u8, ()> = Leaf(0u8, ());
    assert_eq!(t.contains_key(&0u8), true);
    assert_eq!(t.contains_key(&128u8), false);
    assert_eq!(t.contains_key(&255u8), false);
}

#[test]
fn leaf_find() {
    let t: CritBit<u8, u8> = Leaf(0u8, 1u8);
    let val = 1u8;
    assert_eq!(t.find(&0u8), Some(&val));
    assert_eq!(t.find(&128u8), None);
    assert_eq!(t.find(&255u8), None);
}

#[test]
fn internal_len() {
    let t: CritBit<u8, ()> =
        Internal((Box::new(Leaf(0u8, ())), Box::new(Leaf(128u8, ()))), 0u8);
    assert_eq!(t.len(), 2);
}

#[test]
fn internal_contains_key() {
    let t: CritBit<u8, ()> =
        Internal((Box::new(Leaf(0u8, ())), Box::new(Leaf(128u8, ()))), 0u8);
    assert_eq!(t.contains_key(&0u8), true);
    assert_eq!(t.contains_key(&128u8), true);
    assert_eq!(t.contains_key(&255u8), false);
}

#[test]
fn internal_find() {
    let t: CritBit<u8, u8> =
        Internal((Box::new(Leaf(0u8, 1u8)), Box::new(Leaf(128u8, 1u8))), 0u8);
    let val = 1u8;
    assert_eq!(t.find(&0u8), Some(&val));
    assert_eq!(t.find(&128u8), Some(&val));
    assert_eq!(t.find(&255u8), None);
}

#[test]
fn leaf_clear() {
    let mut t: CritBit<u8, ()> = Leaf(0u8, ());
    assert_eq!(t.len(), 1);
    t.clear();
    assert_eq!(t.len(), 0);
}

#[test]
fn internal_clear() {
    let mut t: CritBit<u8, ()> =
        Internal((Box::new(Leaf(0u8, ())), Box::new(Leaf(128u8, ()))), 0u8);
    assert_eq!(t.len(), 2);
    t.clear();
    assert_eq!(t.len(), 0);
}

#[test]
fn empty_find_mut() {
    let mut t: CritBit<u8, ()> = Empty;
    assert!(t.find_mut(&0u8).is_none());
    assert!(t.find_mut(&128u8).is_none());
    assert!(t.find_mut(&255u8).is_none());
}

#[test]
fn leaf_find_mut() {
    let mut t: CritBit<u8, u8> = Leaf(0u8, 1u8);
    let val = 7u8;
    {
        let x = t.find_mut(&0u8);
        assert!(x.is_some());
        let y = x.unwrap();
        assert_eq!(*y, 1u8);
        *y = 7u8;
    }

    assert_eq!(t.find(&0u8), Some(&val));
    assert!(t.find_mut(&128u8).is_none());
    assert!(t.find_mut(&255u8).is_none());
}

#[test]
fn internal_find_mut() {
    let mut t: CritBit<u8, u8> =
        Internal((Box::new(Leaf(0u8, 1u8)), Box::new(Leaf(128u8, 1u8))), 0u8);
    let val = 7u8;
    {
        let x = t.find_mut(&0u8);
        assert!(x.is_some());
        let y = x.unwrap();
        assert_eq!(*y, 1u8);
        *y = 7u8;
    }

    assert_eq!(t.find(&0u8), Some(&val));
    assert!(t.find_mut(&128u8).is_some());
    assert!(t.find_mut(&255u8).is_none());
}

#[test]
fn empty_swap() {
    let mut t: CritBit<u8, u8> = Empty;
    let val = 1u8;
    assert_eq!(t.swap(0u8, 1u8), None);
    assert_eq!(t.find(&0u8), Some(&val));
}

#[test]
fn leaf_swap_exists() {
    let mut t: CritBit<u8, u8> = Leaf(0u8, 1u8);
    let val = 7u8;
    assert_eq!(t.swap(0u8, 7u8), Some(1u8));
    assert_eq!(t.find(&0u8), Some(&val));
}

#[test]
fn leaf_swap_new() {
    let mut t: CritBit<u8, u8> = Leaf(0u8, 1u8);
    let oldval = 1u8;
    let val = 7u8;
    assert_eq!(t.swap(128u8, 7u8), None);
    assert_eq!(t.len(), 2);
    assert_eq!(t.find(&0u8), Some(&oldval));
    assert_eq!(t.find(&128u8), Some(&val));
}

#[test]
fn internal_swap_new() {
    let mut t: CritBit<u8, u8> =
        Internal((Box::new(Leaf(0u8, 1u8)), Box::new(Leaf(128u8, 1u8))), 0u8);
    let oldval = 1u8;
    let val = 7u8;
    assert_eq!(t.swap(255u8, 7u8), None);
    assert_eq!(t.len(), 3);
    assert_eq!(t.find(&0u8), Some(&oldval));
    assert_eq!(t.find(&128u8), Some(&oldval));
    assert_eq!(t.find(&255u8), Some(&val));
}

#[test]
fn internal_swap_exists() {
    let mut t: CritBit<u8, u8> =
        Internal((Box::new(Leaf(0u8, 1u8)), Box::new(Leaf(128u8, 1u8))), 0u8);
    let val = 7u8;
    assert_eq!(t.swap(0u8, 7u8), Some(1u8));
    assert_eq!(t.find(&0u8), Some(&val));
}

#[test]
fn empty_pop() {
    let mut t: CritBit<u8, ()> = Empty;
    assert_eq!(t.pop(&0u8), None);
}

#[test]
fn leaf_pop() {
    let mut t: CritBit<u8, ()> = Leaf(0u8, ());
    assert_eq!(t.pop(&0u8), Some(()));
    assert_eq!(t.len(), 0);
}

#[test]
fn internal_pop() {
    let mut t: CritBit<u8, ()> =
        Internal((Box::new(Leaf(0u8, ())), Box::new(Leaf(128u8, ()))), 0u8);
    assert_eq!(t.pop(&0u8), Some(()));
    assert_eq!(t.len(), 1);
}
