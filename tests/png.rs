use raytracer::png::{chunk_bytes, frame_chunk, header_bytes, ChunkType, PngWriter};

#[test]
fn header_holds_signature_and_image_header_chunk() {
    let expected = vec![
        0x89, 0x50, 0x4e, 0x47, 0x0d, 0x0a, 0x1a, 0x0a, // signature
        0, 0, 0, 13, 73, 72, 68, 82, // length, IHDR
        0, 0, 0, 10, 0, 0, 0, 10, 8, 6, 0, 0, 0, // fields
        141, 50, 207, 189, // crc
    ];
    assert_eq!(expected, header_bytes(10, 10));
}

#[test]
fn empty_end_chunk_has_known_checksum() {
    assert_eq!(
        vec![0, 0, 0, 0, 73, 69, 78, 68, 174, 66, 96, 130],
        chunk_bytes(ChunkType::End, &[])
    );
}

#[test]
fn data_chunk_checksum_covers_tag_and_payload() {
    assert_eq!(
        vec![0, 0, 0, 2, 73, 68, 65, 84, 1, 2, 139, 238, 237, 215],
        chunk_bytes(ChunkType::Data, &[1, 2])
    );
}

#[test]
fn frame_chunk_uses_given_checksum() {
    assert_eq!(
        vec![0, 0, 0, 1, 73, 68, 65, 84, 5, 1, 2, 3, 4],
        frame_chunk(ChunkType::Data, &[5], 0x01020304)
    );
}

#[test]
fn writer_opens_each_scanline_with_filter_byte() {
    let mut writer = PngWriter::new(2, 2);
    writer.write_pixel(1, 2, 3);
    writer.write_pixel(4, 5, 6);
    writer.write_pixel(7, 8, 9);
    writer.write_pixel(10, 11, 12);
    let expected = vec![
        0, 0, 0, 29, 73, 68, 65, 84, // length, IDAT
        120, 1, // zlib header
        1, 18, 0, 237, 255, // final stored block of 18 bytes
        0, 1, 2, 3, 255, 4, 5, 6, 255, // first row
        0, 7, 8, 9, 255, 10, 11, 12, 255, // second row
        32, 11, 4, 75, // adler-32
        238, 83, 208, 41, // crc
        0, 0, 0, 0, 73, 69, 78, 68, 174, 66, 96, 130, // IEND
    ];
    assert_eq!(expected, writer.finish());
}

#[test]
fn single_column_image_has_filter_byte_per_pixel() {
    let mut writer = PngWriter::new(1, 2);
    writer.write_pixel(1, 1, 1);
    writer.write_pixel(2, 2, 2);
    let out = writer.finish();
    // The stored block payload starts after length, tag, zlib header and block header.
    assert_eq!(&[0, 1, 1, 1, 255, 0, 2, 2, 2, 255], &out[15..25]);
}
