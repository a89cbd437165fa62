use session_carrier::codec::{unpack, DecodeFault, Payload};
use session_carrier::wire::frame_tail;

fn int_bytes(value: i64) -> Vec<u8> {
    value.encode().unwrap()
}

fn uint_bytes(value: u64) -> Vec<u8> {
    value.encode().unwrap()
}

#[test]
fn bool_frames_are_single_markers() {
    assert_eq!(true.encode().unwrap(), vec![0xc3]);
    assert_eq!(false.encode().unwrap(), vec![0xc2]);
}

#[test]
fn small_integers_are_single_bytes() {
    assert_eq!(int_bytes(0), vec![0x00]);
    assert_eq!(int_bytes(3), vec![0x03]);
    assert_eq!(int_bytes(127), vec![0x7f]);
    assert_eq!(int_bytes(-1), vec![0xff]);
    assert_eq!(int_bytes(-2), vec![0xfe]);
    assert_eq!(int_bytes(-32), vec![0xe0]);
    assert_eq!(uint_bytes(0), vec![0x00]);
    assert_eq!(uint_bytes(4), vec![0x04]);
    assert_eq!(uint_bytes(7), vec![0x07]);
    assert_eq!(uint_bytes(127), vec![0x7f]);
}

#[test]
fn unsigned_frames_take_the_shortest_form() {
    assert_eq!(uint_bytes(128), vec![0xcc, 0x80]);
    assert_eq!(uint_bytes(255), vec![0xcc, 0xff]);
    assert_eq!(uint_bytes(256), vec![0xcd, 0x01, 0x00]);
    assert_eq!(uint_bytes(0x1234), vec![0xcd, 0x12, 0x34]);
    assert_eq!(uint_bytes(65535), vec![0xcd, 0xff, 0xff]);
    assert_eq!(uint_bytes(65536), vec![0xce, 0x00, 0x01, 0x00, 0x00]);
    assert_eq!(uint_bytes(0x1234_5678), vec![0xce, 0x12, 0x34, 0x56, 0x78]);
    assert_eq!(uint_bytes(0xffff_ffff), vec![0xce, 0xff, 0xff, 0xff, 0xff]);
    assert_eq!(
        uint_bytes(0x1_0000_0000),
        vec![0xcf, 0x00, 0x00, 0x00, 0x01, 0x00, 0x00, 0x00, 0x00]
    );
    assert_eq!(
        uint_bytes(0x0123_4567_89ab_cdef),
        vec![0xcf, 0x01, 0x23, 0x45, 0x67, 0x89, 0xab, 0xcd, 0xef]
    );
    assert_eq!(
        uint_bytes(u64::MAX),
        vec![0xcf, 0xff, 0xff, 0xff, 0xff, 0xff, 0xff, 0xff, 0xff]
    );
}

#[test]
fn signed_frames_of_positive_values_are_unsigned_frames() {
    assert_eq!(int_bytes(128), vec![0xcc, 0x80]);
    assert_eq!(int_bytes(255), vec![0xcc, 0xff]);
    assert_eq!(int_bytes(256), vec![0xcd, 0x01, 0x00]);
    assert_eq!(int_bytes(65535), vec![0xcd, 0xff, 0xff]);
    assert_eq!(int_bytes(65536), vec![0xce, 0x00, 0x01, 0x00, 0x00]);
    assert_eq!(int_bytes(0xffff_ffff), vec![0xce, 0xff, 0xff, 0xff, 0xff]);
    assert_eq!(
        int_bytes(0x1_0000_0000),
        vec![0xcf, 0x00, 0x00, 0x00, 0x01, 0x00, 0x00, 0x00, 0x00]
    );
    assert_eq!(
        int_bytes(i64::MAX),
        vec![0xcf, 0x7f, 0xff, 0xff, 0xff, 0xff, 0xff, 0xff, 0xff]
    );
    for value in [0u64, 1, 127, 128, 255, 256, 65535, 65536, 0xffff_ffff, 0x1_0000_0000] {
        assert_eq!(int_bytes(value as i64), uint_bytes(value));
    }
}

#[test]
fn signed_frames_of_negative_values_are_twos_complement() {
    assert_eq!(int_bytes(-33), vec![0xd0, 0xdf]);
    assert_eq!(int_bytes(-128), vec![0xd0, 0x80]);
    assert_eq!(int_bytes(-129), vec![0xd1, 0xff, 0x7f]);
    assert_eq!(int_bytes(-32768), vec![0xd1, 0x80, 0x00]);
    assert_eq!(int_bytes(-32769), vec![0xd2, 0xff, 0xff, 0x7f, 0xff]);
    assert_eq!(int_bytes(-2147483648), vec![0xd2, 0x80, 0x00, 0x00, 0x00]);
    assert_eq!(
        int_bytes(-2147483649),
        vec![0xd3, 0xff, 0xff, 0xff, 0xff, 0x7f, 0xff, 0xff, 0xff]
    );
    assert_eq!(
        int_bytes(i64::MIN),
        vec![0xd3, 0x80, 0x00, 0x00, 0x00, 0x00, 0x00, 0x00, 0x00]
    );
}

#[test]
fn every_form_of_an_integer_is_read() {
    assert_eq!(i64::decode(&[0x04]).unwrap(), 4);
    assert_eq!(i64::decode(&[0xcc, 0x04]).unwrap(), 4);
    assert_eq!(i64::decode(&[0xcd, 0x00, 0x04]).unwrap(), 4);
    assert_eq!(i64::decode(&[0xce, 0x00, 0x00, 0x00, 0x04]).unwrap(), 4);
    assert_eq!(i64::decode(&[0xcf, 0, 0, 0, 0, 0, 0, 0, 4]).unwrap(), 4);
    assert_eq!(i64::decode(&[0xd0, 0x04]).unwrap(), 4);
    assert_eq!(i64::decode(&[0xd1, 0x00, 0x04]).unwrap(), 4);
    assert_eq!(i64::decode(&[0xd2, 0x00, 0x00, 0x00, 0x04]).unwrap(), 4);
    assert_eq!(i64::decode(&[0xd3, 0, 0, 0, 0, 0, 0, 0, 4]).unwrap(), 4);
    assert_eq!(u64::decode(&[0xd3, 0, 0, 0, 0, 0, 0, 0, 4]).unwrap(), 4);
    assert_eq!(u64::decode(&[0xd0, 0x7f]).unwrap(), 127);
    assert_eq!(i64::decode(&[0xd0, 0xff]).unwrap(), -1);
    assert_eq!(i64::decode(&[0xd1, 0xff, 0xfe]).unwrap(), -2);
    assert_eq!(i64::decode(&[0xd2, 0xff, 0xff, 0xff, 0xfd]).unwrap(), -3);
    assert_eq!(
        i64::decode(&[0xd3, 0xff, 0xff, 0xff, 0xff, 0xff, 0xff, 0xff, 0xfc]).unwrap(),
        -4
    );
    assert_eq!(i64::decode(&[0xe0]).unwrap(), -32);
    assert_eq!(i64::decode(&[0xff]).unwrap(), -1);
    assert_eq!(i64::decode(&[0x7f]).unwrap(), 127);
    assert_eq!(i64::decode(&[0xd0, 0x80]).unwrap(), -128);
    assert_eq!(i64::decode(&[0xd1, 0x80, 0x00]).unwrap(), -32768);
    assert_eq!(i64::decode(&[0xcd, 0x80, 0x00]).unwrap(), 32768);
}

#[test]
fn integers_out_of_range_are_refused() {
    let top = [0xcf, 0x80, 0x00, 0x00, 0x00, 0x00, 0x00, 0x00, 0x00];
    assert!(i64::decode(&top).is_err());
    assert_eq!(u64::decode(&top).unwrap(), 1u64 << 63);
    let most = [0xcf, 0x7f, 0xff, 0xff, 0xff, 0xff, 0xff, 0xff, 0xff];
    assert_eq!(i64::decode(&most).unwrap(), i64::MAX);
    assert!(u64::decode(&[0xff]).is_err());
    assert!(u64::decode(&[0xe0]).is_err());
    assert!(u64::decode(&[0xd0, 0xff]).is_err());
    assert!(u64::decode(&[0xd3, 0xff, 0xff, 0xff, 0xff, 0xff, 0xff, 0xff, 0xff]).is_err());
    assert_eq!(u64::decode(&[0xd0, 0x00]).unwrap(), 0);
}

#[test]
fn values_of_another_kind_are_refused() {
    assert!(i64::decode(&[0xc3]).is_err());
    assert!(i64::decode(&[0xc2]).is_err());
    assert!(u64::decode(&[0xc3]).is_err());
    assert!(bool::decode(&[0x00]).is_err());
    assert!(bool::decode(&[0x01]).is_err());
    assert!(bool::decode(&[0xff]).is_err());
    assert!(bool::decode(&[0xcc, 0x01]).is_err());
    assert!(i64::decode(&[0xc0]).is_err());
    assert!(bool::decode(&[0xc0]).is_err());
    assert!(i64::decode(&[0xca, 0x00, 0x00, 0x00, 0x00]).is_err());
    assert!(i64::decode(&[0xa1, 0x61]).is_err());
    assert!(i64::decode(&[0x91, 0x01]).is_err());
    assert!(bool::decode(&[0xc1]).is_err());
}

#[test]
fn booleans_are_read_from_their_markers() {
    assert_eq!(bool::decode(&[0xc3]).unwrap(), true);
    assert_eq!(bool::decode(&[0xc2]).unwrap(), false);
}

#[test]
fn short_input_is_refused() {
    assert!(i64::decode(&[]).is_err());
    assert!(u64::decode(&[]).is_err());
    assert!(bool::decode(&[]).is_err());
    assert!(i64::decode(&[0xcc]).is_err());
    assert!(i64::decode(&[0xcd, 0x01]).is_err());
    assert!(i64::decode(&[0xce, 0x01, 0x02, 0x03]).is_err());
    assert!(i64::decode(&[0xcf, 1, 2, 3, 4, 5, 6, 7]).is_err());
    assert!(i64::decode(&[0xd0]).is_err());
    assert!(i64::decode(&[0xd1, 0x01]).is_err());
    assert!(i64::decode(&[0xd2, 0x01, 0x02, 0x03]).is_err());
    assert!(i64::decode(&[0xd3, 1, 2, 3, 4, 5, 6, 7]).is_err());
}

#[test]
fn bytes_behind_the_value_are_not_read() {
    assert_eq!(i64::decode(&[0x05, 0xc1, 0xc1]).unwrap(), 5);
    assert_eq!(i64::decode(&[0xcc, 0x80, 0xff]).unwrap(), 128);
    assert_eq!(u64::decode(&[0xcd, 0x01, 0x00, 0x07]).unwrap(), 256);
    assert_eq!(bool::decode(&[0xc3, 0xc2]).unwrap(), true);
}

#[test]
fn what_a_frame_carries_is_the_value_framed() {
    let ints: [i64; 33] = [
        0, 1, -1, 2, -2, 31, -31, 32, -32, 33, -33, 127, -127, 128, -128, 129, -129, 255, 256,
        -256, 32767, -32768, -32769, 65535, 65536, 2147483647, -2147483648, -2147483649,
        4294967295, 4294967296, i64::MAX, i64::MIN, -4294967296,
    ];
    for value in ints {
        let bytes = value.encode().unwrap();
        assert_eq!(i64::decode(&bytes).unwrap(), value);
        let (back, used) = unpack::<i64>(&bytes).unwrap();
        assert_eq!(back, value);
        assert_eq!(used, bytes.len());
    }
    let uints: [u64; 14] = [
        0, 1, 127, 128, 255, 256, 65535, 65536, 4294967295, 4294967296, 1 << 62, 1 << 63,
        u64::MAX - 1, u64::MAX,
    ];
    for value in uints {
        let bytes = value.encode().unwrap();
        assert_eq!(u64::decode(&bytes).unwrap(), value);
        let (back, used) = unpack::<u64>(&bytes).unwrap();
        assert_eq!(back, value);
        assert_eq!(used, bytes.len());
    }
    for value in [true, false] {
        let bytes = value.encode().unwrap();
        assert_eq!(bool::decode(&bytes).unwrap(), value);
        let (back, used) = unpack::<bool>(&bytes).unwrap();
        assert_eq!(back, value);
        assert_eq!(used, 1);
    }
}

#[test]
fn the_marker_sets_the_length_of_the_frame() {
    for marker in 0x00..=0x7fu8 {
        assert_eq!(frame_tail(marker), Some(0));
    }
    for marker in 0xe0..=0xffu8 {
        assert_eq!(frame_tail(marker), Some(0));
    }
    assert_eq!(frame_tail(0xc2), Some(0));
    assert_eq!(frame_tail(0xc3), Some(0));
    assert_eq!(frame_tail(0xcc), Some(1));
    assert_eq!(frame_tail(0xcd), Some(2));
    assert_eq!(frame_tail(0xce), Some(4));
    assert_eq!(frame_tail(0xcf), Some(8));
    assert_eq!(frame_tail(0xd0), Some(1));
    assert_eq!(frame_tail(0xd1), Some(2));
    assert_eq!(frame_tail(0xd2), Some(4));
    assert_eq!(frame_tail(0xd3), Some(8));
    for marker in 0x80..=0xc1u8 {
        assert_eq!(frame_tail(marker), None);
    }
    for marker in 0xc4..=0xcbu8 {
        assert_eq!(frame_tail(marker), None);
    }
    for marker in 0xd4..=0xdfu8 {
        assert_eq!(frame_tail(marker), None);
    }
}

#[test]
fn the_length_of_every_frame_is_what_its_marker_sets() {
    let ints: [i64; 12] = [
        0, -1, -33, 127, 128, -129, 256, 65536, -32769, 4294967296, i64::MIN, i64::MAX,
    ];
    for value in ints {
        let bytes = value.encode().unwrap();
        assert_eq!(frame_tail(bytes[0]), Some(bytes.len() - 1));
    }
}

#[test]
fn unpack_reads_the_first_frame_only() {
    let (value, used) = unpack::<i64>(&[0xcd, 0x01, 0x02, 0xc3, 0x05]).unwrap();
    assert_eq!(value, 258);
    assert_eq!(used, 3);
    let (flag, used) = unpack::<bool>(&[0xc3, 0x05]).unwrap();
    assert_eq!(flag, true);
    assert_eq!(used, 1);
    let (index, used) = unpack::<u64>(&[0x07]).unwrap();
    assert_eq!(index, 7);
    assert_eq!(used, 1);
}

#[test]
fn unpack_tells_the_faults_apart() {
    assert!(matches!(unpack::<i64>(&[]), Err(DecodeFault::Closed)));
    assert!(matches!(unpack::<bool>(&[]), Err(DecodeFault::Closed)));
    assert!(matches!(unpack::<i64>(&[0xc0]), Err(DecodeFault::Marker(0xc0))));
    assert!(matches!(unpack::<i64>(&[0xca, 0, 0, 0, 0]), Err(DecodeFault::Marker(0xca))));
    assert!(matches!(unpack::<bool>(&[0x93, 1, 2, 3]), Err(DecodeFault::Marker(0x93))));
    assert!(matches!(unpack::<i64>(&[0xcd, 0x01]), Err(DecodeFault::Truncated)));
    assert!(matches!(unpack::<i64>(&[0xd3, 1, 2, 3, 4, 5, 6, 7]), Err(DecodeFault::Truncated)));
    assert!(matches!(unpack::<u64>(&[0xcc]), Err(DecodeFault::Truncated)));
    assert!(matches!(unpack::<i64>(&[0xc3]), Err(DecodeFault::Codec(_))));
    assert!(matches!(unpack::<bool>(&[0x01]), Err(DecodeFault::Codec(_))));
    assert!(matches!(unpack::<u64>(&[0xff]), Err(DecodeFault::Codec(_))));
    assert!(matches!(
        unpack::<i64>(&[0xcf, 0xff, 0, 0, 0, 0, 0, 0, 0]),
        Err(DecodeFault::Codec(_))
    ));
    assert!(matches!(unpack::<bool>(&[0xcc, 0x01, 0xc3]), Err(DecodeFault::Codec(_))));
}

#[test]
fn a_frame_cut_short_is_truncated_at_every_length() {
    let whole = (-2147483649i64).encode().unwrap();
    assert_eq!(whole.len(), 9);
    assert!(matches!(unpack::<i64>(&whole[..0]), Err(DecodeFault::Closed)));
    for cut in 1..whole.len() {
        assert!(matches!(unpack::<i64>(&whole[..cut]), Err(DecodeFault::Truncated)));
    }
    assert!(unpack::<i64>(&whole).is_ok());
}
