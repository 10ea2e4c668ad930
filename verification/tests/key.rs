use critbit::{bit_at, BitKey};

#[test]
fn bits_of_a_byte() {
    let v = 0b1010_0110u8;
    let expected = [true, false, true, false, false, true, true, false];
    for pos in 0..8u8 {
        assert_eq!(bit_at(&v, &pos), expected[pos as usize]);
        assert_eq!(v.test_bit(&pos), expected[pos as usize]);
    }
}

#[test]
fn position_wraps_at_the_width() {
    assert_eq!(bit_at(&128u8, &8u8), true);
    assert_eq!(bit_at(&1u8, &15u8), true);
    assert_eq!(bit_at(&1u8, &8u8), false);
    assert_eq!(bit_at(&0x8000u16, &16u16), true);
    assert_eq!(bit_at(&1u32, &63u32), true);
    assert_eq!(bit_at(&1u64, &(1u64 << 32 | 63)), true);
    assert_eq!(bit_at(&1u64, &(1u64 << 32)), false);
}

#[test]
fn bits_of_wider_keys() {
    assert_eq!(bit_at(&0x8000u16, &0u16), true);
    assert_eq!(bit_at(&0x8000u16, &15u16), false);
    assert_eq!(bit_at(&1u16, &15u16), true);
    assert_eq!(bit_at(&0x8000_0000u32, &0u32), true);
    assert_eq!(bit_at(&1u32, &31u32), true);
    assert_eq!(bit_at(&1u32, &30u32), false);
    assert_eq!(bit_at(&(1u64 << 63), &0u64), true);
    assert_eq!(bit_at(&1u64, &63u64), true);
    assert_eq!(bit_at(&(1u64 << 40), &23u64), true);
    assert_eq!(bit_at(&(1u64 << 40), &24u64), false);
}

#[test]
fn critical_bit_is_first_difference() {
    assert_eq!(0u8.critical_bit(&128), 0);
    assert_eq!(0u8.critical_bit(&1), 7);
    assert_eq!(0b0101_0000u8.critical_bit(&0b0101_0100), 5);
    assert_eq!(0xffffu16.critical_bit(&0xfffe), 15);
    assert_eq!(0x0100u16.critical_bit(&0), 7);
    assert_eq!(7u32.critical_bit(&0x8000_0007), 0);
    assert_eq!(2u32.critical_bit(&0), 30);
    assert_eq!(0u64.critical_bit(&u64::MAX), 0);
    assert_eq!(6u64.critical_bit(&7), 63);
}

#[test]
fn larger_key_has_the_critical_bit_set() {
    let keys: [u8; 6] = [0, 1, 77, 128, 200, 255];
    for a in keys {
        for b in keys {
            if a != b {
                let c = a.critical_bit(&b);
                assert!(c.in_width());
                assert_ne!(bit_at(&a, &c), bit_at(&b, &c));
                assert_eq!(a.below(&b), bit_at(&b, &c));
                for i in 0..c {
                    assert_eq!(bit_at(&a, &i), bit_at(&b, &i));
                }
            }
        }
    }
}

#[test]
fn equality_order_and_width() {
    assert!(5u8.same(&5));
    assert!(!5u8.same(&6));
    assert!(5u16.below(&6));
    assert!(!6u32.below(&6));
    assert!(!7u64.below(&6));
    assert!(7u8.in_width());
    assert!(!8u8.in_width());
    assert!(15u16.in_width());
    assert!(!16u16.in_width());
    assert!(31u32.in_width());
    assert!(!32u32.in_width());
    assert!(63u64.in_width());
    assert!(!64u64.in_width());
}

#[test]
fn bits_of_the_widest_keys() {
    assert_eq!(bit_at(&(1u128 << 127), &0u128), true);
    assert_eq!(bit_at(&(1u128 << 127), &1u128), false);
    assert_eq!(bit_at(&1u128, &127u128), true);
    assert_eq!(bit_at(&(1u128 << 64), &63u128), true);
    assert_eq!(bit_at(&(1u128 << 63), &64u128), true);
    assert_eq!(bit_at(&(1u128 << 63), &63u128), false);
    assert_eq!(bit_at(&(1u128 << 127), &128u128), true);
    assert_eq!(0u128.critical_bit(&1), 127);
    assert_eq!(0u128.critical_bit(&(1 << 64)), 63);
    assert_eq!(0u128.critical_bit(&(1 << 63)), 64);
    assert_eq!((1u128 << 127).critical_bit(&0), 0);
    assert_eq!(u128::MAX.critical_bit(&(u128::MAX - 2)), 126);
    assert!(127u128.in_width());
    assert!(!128u128.in_width());
    assert!(3u128.below(&(1 << 100)));
    assert!((1u128 << 100).same(&(1 << 100)));
}

#[test]
fn bits_of_a_word() {
    let top = usize::BITS as usize - 1;
    assert_eq!(bit_at(&(1usize << top), &0usize), true);
    assert_eq!(bit_at(&(1usize << top), &1usize), false);
    assert_eq!(bit_at(&1usize, &top), true);
    assert_eq!(bit_at(&1usize, &(top - 1)), false);
    assert_eq!(bit_at(&(1usize << top), &(top + 1)), true);
    assert_eq!(0usize.critical_bit(&1), top);
    assert_eq!(0usize.critical_bit(&(1 << top)), 0);
    assert_eq!(5usize.critical_bit(&7), top - 1);
    assert!(top.in_width());
    assert!(!(top + 1).in_width());
    assert!(3usize.below(&4));
    assert!(4usize.same(&4));
}
