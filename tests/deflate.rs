use raytracer::deflate::{compress, frame_stored, STORED_BLOCK_MAX};

#[test]
fn zero_compress_empty_buffer_no_blocks() {
    let expected = vec![
        0x78, 0x01, // header
        0x0, 0x0, 0x0, 0x1, // checksum
    ];
    assert_eq!(expected, compress(&[]));
}

#[test]
fn zero_compress_simple_buffer() {
    let expected = vec![
        0x78, 0x01, // header
        0x1, // last chunk
        0x3, 0x0, // len
        0xfc, 0xff, // nlen
        0x1, 0x2, 0x3, // data
        0x0, 0xd, 0x0, 0x7, // checksum
    ];
    assert_eq!(expected, compress(&[1, 2, 3]));
}

#[test]
fn frame_stored_uses_given_checksum() {
    let framed = frame_stored(&[7], 0xdeadbeef);
    assert_eq!(
        vec![0x78, 0x01, 0x1, 0x1, 0x0, 0xfe, 0xff, 0x7, 0xde, 0xad, 0xbe, 0xef],
        framed
    );
}

#[test]
fn exact_block_size_gives_one_final_block() {
    let data = vec![0u8; STORED_BLOCK_MAX];
    let out = compress(&data);
    assert_eq!(2 + 5 + STORED_BLOCK_MAX + 4, out.len());
    assert_eq!(&[0x1, 0xfa, 0xff, 0x05, 0x00], &out[2..7]);
}

#[test]
fn one_byte_over_block_size_gives_two_blocks() {
    let data = vec![0u8; STORED_BLOCK_MAX + 1];
    let out = compress(&data);
    assert_eq!(2 + 5 + STORED_BLOCK_MAX + 5 + 1 + 4, out.len());
    assert_eq!(&[0x0, 0xfa, 0xff, 0x05, 0x00], &out[2..7]);
    let second = 7 + STORED_BLOCK_MAX;
    assert_eq!(&[0x1, 0x1, 0x0, 0xfe, 0xff, 0x0], &out[second..second + 6]);
    // Adler-32 of 65531 zero bytes.
    assert_eq!(&[0x00, 0x0a, 0x00, 0x01], &out[out.len() - 4..]);
}
