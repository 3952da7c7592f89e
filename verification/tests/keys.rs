use wusic::keys::{key_bytes, key_value, KEY_BYTES};

#[test]
fn key_is_big_endian() {
    let fp: u128 = 0x0102_0304_0506_0708_090a_0b0c_0d0e_0f10;
    assert_eq!(
        key_bytes(fp),
        [1, 2, 3, 4, 5, 6, 7, 8, 9, 10, 11, 12, 13, 14, 15, 16]
    );
    assert_eq!(key_bytes(fp), fp.to_be_bytes());
    assert_eq!(key_bytes(0), [0u8; 16]);
    assert_eq!(key_bytes(u128::MAX), [0xffu8; 16]);
    assert_eq!(key_bytes(1)[15], 1);
    assert_eq!(KEY_BYTES, 16);
}

#[test]
fn key_is_read_back() {
    for fp in [0u128, 1, 255, 256, 0xaaaa_aaaa, u128::MAX, 1u128 << 127, 0x1234_5678_9abc_def0] {
        assert_eq!(key_value(&key_bytes(fp)), Some(fp));
        assert_eq!(key_value(&fp.to_be_bytes()), Some(fp));
    }
}

#[test]
fn bytes_of_another_length_are_no_key() {
    assert_eq!(key_value(&[]), None);
    assert_eq!(key_value(&[0u8; 15]), None);
    assert_eq!(key_value(&[0u8; 17]), None);
    assert_eq!(key_value(&[1u8; 32]), None);
}

#[test]
fn keys_stand_in_the_order_of_fingerprints() {
    let fps: [u128; 6] = [0, 1, 255, 256, 1u128 << 64, u128::MAX];
    for a in fps {
        for b in fps {
            assert_eq!(key_bytes(a) < key_bytes(b), a < b);
        }
    }
}
