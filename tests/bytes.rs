use raytracer::bytes::{push_be, to_bytes_big_endian};

#[test]
fn converts_zero() {
    assert_eq!([0, 0, 0, 0], to_bytes_big_endian(0));
}

#[test]
fn converts_number() {
    assert_eq!([0x1, 0x2, 0x3, 0x4], to_bytes_big_endian(16_909_060));
}

#[test]
fn converts_largest_value() {
    assert_eq!([0xff, 0xff, 0xff, 0xff], to_bytes_big_endian(u32::MAX));
}

#[test]
fn pushes_big_endian_after_existing_bytes() {
    let mut out = vec![9u8];
    push_be(&mut out, 0x0a0b0c0d);
    assert_eq!(vec![9, 0x0a, 0x0b, 0x0c, 0x0d], out);
}
