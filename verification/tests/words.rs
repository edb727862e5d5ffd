use mmachine::bits::MValue;

#[test]
fn mvalue_test() {
    let v = MValue::from_u32(1);
    assert_eq!(v.as_string(), "0000000000000001");
    assert_eq!(v.as_u32(), 1);
}

#[test]
fn mvalue_test_2() {
    let v = MValue::from_u32(11111);
    assert_eq!(v.as_string(), "0010101101100111");
    assert_eq!(v.as_u32(), 11111);
}

#[test]
fn mvalue_test_add() {
    let mut v = MValue::from_u32(69);
    let v2 = MValue::from_u32(420);
    v.add(&v2);
    assert_eq!(v.as_u32(), 489);

    let mut v = MValue::from_u32(6719);
    let v2 = MValue::from_u32(7877);
    v.add(&v2);
    assert_eq!(v.as_u32(), 14596);
}

#[test]
fn mvalue_test_sub() {
    let v = MValue::from_u32(69);
    let mut v2 = MValue::from_u32(420);
    v2.sub(&v);
    assert_eq!(v2.as_u32(), 351);

    let mut v = MValue::from_u32(19937);
    let v2 = MValue::from_u32(9377);
    v.sub(&v2);
    assert_eq!(v.as_u32(), 10560);
}

#[test]
fn mvalue_test_mul() {
    let mut v = MValue::from_u32(69);
    let v2 = MValue::from_u32(42);
    v.mul(&v2);
    assert_eq!(v.as_u32(), 2898);
}

#[test]
fn word_holds_every_number_below_two_to_sixteen() {
    for u in (0..65536u32).step_by(257).chain([1, 2, 255, 256, 32768, 65534, 65535]) {
        let w = MValue::from_u32(u);
        assert_eq!(w.as_u32(), u);
        let digits = w.as_string();
        assert_eq!(digits.len(), 16);
        assert_eq!(u32::from_str_radix(&digits, 2).unwrap(), u);
    }
}

#[test]
fn word_keeps_low_sixteen_bits() {
    assert_eq!(MValue::from_u32(65536).as_u32(), 0);
    assert_eq!(MValue::from_u32(0x12345).as_u32(), 0x2345);
    assert_eq!(MValue::from_u32(u32::MAX).as_u32(), 0xffff);
    assert_eq!(MValue::from_u32(u32::MAX).as_string(), "1111111111111111");
    assert_eq!(MValue::from_u32(0).as_string(), "0000000000000000");
    assert_eq!(MValue::from_u32(0x8001).as_string(), "1000000000000001");
    assert_eq!(MValue::default().as_u32(), 0);
}

#[test]
fn arithmetic_wraps_modulo_two_to_sixteen() {
    let samples = [0u32, 1, 2, 3, 255, 256, 1000, 32767, 32768, 40000, 65534, 65535];
    for u in samples {
        for v in samples {
            let mut w = MValue::from_u32(u);
            w.add(&MValue::from_u32(v));
            assert_eq!(w.as_u32(), (u + v) % 65536);

            let mut w = MValue::from_u32(u);
            w.sub(&MValue::from_u32(v));
            assert_eq!(w.as_u32(), (u + 65536 - v) % 65536);

            let mut w = MValue::from_u32(u);
            w.mul(&MValue::from_u32(v));
            assert_eq!(w.as_u32(), (u * v) % 65536);

            if v > 0 {
                let mut w = MValue::from_u32(u);
                w.div(&MValue::from_u32(v));
                assert_eq!(w.as_u32(), u / v);
            }
        }
    }
}

#[test]
fn arithmetic_at_the_edges() {
    let mut w = MValue::from_u32(65535);
    w.add(&MValue::from_u32(1));
    assert_eq!(w.as_u32(), 0);
    let mut w = MValue::from_u32(0);
    w.sub(&MValue::from_u32(1));
    assert_eq!(w.as_u32(), 65535);
    let mut w = MValue::from_u32(65535);
    w.mul(&MValue::from_u32(65535));
    assert_eq!(w.as_u32(), 1);
    let mut w = MValue::from_u32(7);
    w.div(&MValue::from_u32(2));
    assert_eq!(w.as_u32(), 3);
    let mut w = MValue::from_u32(7);
    w.div(&MValue::from_u32(8));
    assert_eq!(w.as_u32(), 0);
}

#[test]
fn clone_then_mutate_leaves_source() {
    let source = MValue::from_u32(1234);
    let mut copy = source.clone();
    assert_eq!(copy.as_u32(), 1234);
    copy.add(&MValue::from_u32(1));
    copy.set_bit(15, true);
    assert_eq!(copy.as_u32(), 1235 + 32768);
    assert_eq!(source.as_u32(), 1234);
    let mut other = source.clone();
    other.set(&MValue::from_u32(9));
    assert_eq!(other.as_u32(), 9);
    assert_eq!(source.as_u32(), 1234);
}

#[test]
fn bits_are_read_and_written() {
    let mut w = MValue::from_u32(0b1010);
    assert!(!w.bit(0));
    assert!(w.bit(1));
    assert!(!w.bit(2));
    assert!(w.bit(3));
    assert!(!w.bit(15));
    w.set_bit(0, true);
    w.set_bit(3, false);
    w.set_bit(15, true);
    w.set_bit(1, true);
    assert_eq!(w.as_u32(), 0b1000_0000_0000_0011);
    let mut copy = MValue::from_u32(0);
    copy.set(&w);
    assert_eq!(copy.as_u32(), w.as_u32());
}
