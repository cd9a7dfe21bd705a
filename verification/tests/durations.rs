use link_session::duration::Duration;
use link_session::encoding::{encode_to_vec, Decode, DecodeError, Encode};

#[test]
fn microseconds_split_towards_zero() {
    let d = Duration::microseconds(-1_500_001);
    assert_eq!(d.num_seconds(), -1);
    assert_eq!(d.subsec_nanos(), -500_001_000);
    assert_eq!(d.num_microseconds(), Some(-1_500_001));
    let d = Duration::microseconds(2_000_003);
    assert_eq!(d.num_seconds(), 2);
    assert_eq!(d.subsec_nanos(), 3_000);
    assert_eq!(Duration::microseconds(0), Duration::zero());
    assert_eq!(Duration::default(), Duration::zero());
}

#[test]
fn microseconds_are_cut_towards_zero() {
    assert_eq!(Duration::from_parts(0, 1_999).unwrap().num_microseconds(), Some(1));
    assert_eq!(Duration::from_parts(0, -1_999).unwrap().num_microseconds(), Some(-1));
    assert_eq!(Duration::from_parts(-3, -1).unwrap().num_microseconds(), Some(-3_000_000));
}

#[test]
fn extreme_microseconds_come_back() {
    for micros in [i64::MIN, i64::MIN + 1, -1, 0, 1, i64::MAX] {
        let d = Duration::microseconds(micros);
        assert_eq!(d.num_microseconds(), Some(micros));
        assert_eq!(d.microseconds_or_zero(), micros);
        assert_eq!(Duration::from_parts(d.num_seconds(), d.subsec_nanos()), Some(d));
    }
}

#[test]
fn sums_may_have_no_microseconds() {
    let d = Duration::microseconds(i64::MAX);
    let sum = d.checked_add(&Duration::microseconds(1)).unwrap();
    assert_eq!(sum.num_microseconds(), None);
    assert_eq!(sum.microseconds_or_zero(), 0);
    let back = sum.checked_sub(&Duration::microseconds(1)).unwrap();
    assert_eq!(back, d);
}

#[test]
fn arithmetic_carries() {
    let a = Duration::microseconds(1_700_000);
    let b = Duration::microseconds(-2_900_000);
    assert_eq!(a.checked_add(&b), Some(Duration::microseconds(-1_200_000)));
    assert_eq!(a.checked_sub(&b), Some(Duration::microseconds(4_600_000)));
    assert_eq!(b.checked_sub(&a), Some(Duration::microseconds(-4_600_000)));
}

#[test]
fn range_ends_at_i64_milliseconds() {
    let longest = Duration::from_parts(9_223_372_036_854_775, 807_000_000).unwrap();
    let shortest = Duration::from_parts(-9_223_372_036_854_775, -807_000_000).unwrap();
    assert_eq!(Duration::from_parts(9_223_372_036_854_775, 807_000_001), None);
    assert_eq!(Duration::from_parts(-9_223_372_036_854_775, -807_000_001), None);
    assert_eq!(Duration::from_parts(9_223_372_036_854_776, 0), None);
    let tick = Duration::from_parts(0, 1).unwrap();
    assert_eq!(longest.checked_add(&tick), None);
    assert_eq!(shortest.checked_sub(&tick), None);
    assert_eq!(longest.checked_add(&shortest), Some(Duration::zero()));
    assert_eq!(longest.num_microseconds(), None);
}

#[test]
fn parts_must_agree() {
    assert_eq!(Duration::from_parts(1, -1), None);
    assert_eq!(Duration::from_parts(-1, 1), None);
    assert_eq!(Duration::from_parts(0, 1_000_000_000), None);
    assert_eq!(Duration::from_parts(0, -1_000_000_000), None);
    assert!(Duration::from_parts(0, -999_999_999).is_some());
}

#[test]
fn durations_compare_by_length() {
    let sorted = [
        Duration::from_parts(-2, -1).unwrap(),
        Duration::from_parts(-2, 0).unwrap(),
        Duration::from_parts(-1, -999_999_999).unwrap(),
        Duration::from_parts(0, -1).unwrap(),
        Duration::zero(),
        Duration::from_parts(0, 1).unwrap(),
        Duration::from_parts(1, 0).unwrap(),
    ];
    for (i, a) in sorted.iter().enumerate() {
        for (j, b) in sorted.iter().enumerate() {
            assert_eq!(a.exceeds(b), i > j);
        }
    }
}

#[test]
fn integers_are_big_endian() {
    assert_eq!(encode_to_vec(&0x12u8), vec![0x12]);
    assert_eq!(encode_to_vec(&0x1234u16), vec![0x12, 0x34]);
    assert_eq!(encode_to_vec(&0x1234_5678u32), vec![0x12, 0x34, 0x56, 0x78]);
    assert_eq!(encode_to_vec(&-2i64), vec![255, 255, 255, 255, 255, 255, 255, 254]);
    assert_eq!(encode_to_vec(&258i64), vec![0, 0, 0, 0, 0, 0, 1, 2]);
    assert_eq!(7u32.encoded_size(), 4);
}

#[test]
fn integers_are_read_back() {
    assert_eq!(u8::decode_from(&[9, 1]), Ok((9, 1)));
    assert_eq!(u16::decode_from(&[1, 2, 3]), Ok((258, 2)));
    assert_eq!(u32::decode_from(&[1, 2, 3]), Err(DecodeError::UnexpectedEnd));
    assert_eq!(u32::decode_from(&[255, 255, 255, 255]), Ok((u32::MAX, 4)));
    assert_eq!(i64::decode_from(&[128, 0, 0, 0, 0, 0, 0, 0]), Ok((i64::MIN, 8)));
    assert_eq!(i64::decode_from(&[0x7f; 7]), Err(DecodeError::UnexpectedEnd));
    assert_eq!(u8::decode_from(&[]), Err(DecodeError::UnexpectedEnd));
}
