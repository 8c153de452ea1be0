//! PNG encoding: the file signature, length- and CRC-framed chunks, and a
//! buffer that lays pixels out as filtered RGBA scanlines.

use vstd::prelude::*;
use vstd::arithmetic::div_mod::{lemma_fundamental_div_mod, lemma_fundamental_div_mod_converse};

use crate::bytes::{be_bytes, push_be, push_range};
use crate::deflate::{adler32_of, compress, lemma_stored_blocks_len, zlib_stored};

verus! {

/// The most bytes of raw scanline data an image may hold, so that its
/// compressed form still fits a chunk's length field.
pub const MAX_IMAGE_BYTES: usize = 0x7ff0_0000;

/// The CRC-32 (ISO-HDLC polynomial) of `bytes`.
pub uninterp spec fn crc32_of(bytes: Seq<u8>) -> u32;

/// Relies on crc32fast's `hash`: the CRC-32 checksum of the whole buffer,
/// as PNG uses it.
#[verifier::external_body]
fn crc32_checksum(bytes: &[u8]) -> (r: u32)
    ensures
        r == crc32_of(bytes@),
{
    crc32fast::hash(bytes)
}

/// The chunks this encoder writes.
#[derive(Clone, Copy, Debug)]
pub enum ChunkType {
    Header,
    Data,
    End,
}

/// The four ASCII letters that name a chunk type.
pub open spec fn chunk_tag(chunk_type: ChunkType) -> Seq<u8> {
    match chunk_type {
        ChunkType::Header => seq![0x49u8, 0x48u8, 0x44u8, 0x52u8],
        ChunkType::Data => seq![0x49u8, 0x44u8, 0x41u8, 0x54u8],
        ChunkType::End => seq![0x49u8, 0x45u8, 0x4eu8, 0x44u8],
    }
}

/// A chunk: payload length, type tag, payload, then the given checksum.
pub open spec fn framed_chunk(chunk_type: ChunkType, data: Seq<u8>, crc: u32) -> Seq<u8> {
    be_bytes(data.len() as u32) + chunk_tag(chunk_type) + data + be_bytes(crc)
}

/// A chunk whose checksum is the CRC-32 of its tag and payload.
pub open spec fn png_chunk(chunk_type: ChunkType, data: Seq<u8>) -> Seq<u8> {
    framed_chunk(chunk_type, data, crc32_of(chunk_tag(chunk_type) + data))
}

/// The eight bytes every PNG file starts with.
pub open spec fn png_signature() -> Seq<u8> {
    seq![0x89u8, 0x50u8, 0x4eu8, 0x47u8, 0x0du8, 0x0au8, 0x1au8, 0x0au8]
}

/// The image header fields: width and height, then 8-bit RGBA, deflate,
/// adaptive filtering and no interlacing.
pub open spec fn header_fields(width: u32, height: u32) -> Seq<u8> {
    be_bytes(width) + be_bytes(height) + seq![8u8, 6u8, 0u8, 0u8, 0u8]
}

/// Everything a PNG file holds before its image data.
pub open spec fn png_header(width: i32, height: i32) -> Seq<u8> {
    png_signature() + png_chunk(ChunkType::Header, header_fields(width as u32, height as u32))
}

/// The image data and end chunks for the given raw scanlines.
pub open spec fn png_trailer(raw: Seq<u8>) -> Seq<u8> {
    png_chunk(ChunkType::Data, zlib_stored(raw, adler32_of(raw))) + png_chunk(
        ChunkType::End,
        seq![],
    )
}

/// Pixels laid out in rows of `width`, each row opened by filter type 0
/// (none) and each pixel written as red, green, blue and an opaque alpha.
pub open spec fn raw_scanlines(pixels: Seq<(u8, u8, u8)>, width: nat) -> Seq<u8>
    decreases pixels.len(),
{
    if pixels.len() == 0 {
        seq![]
    } else {
        let k = (pixels.len() - 1) as nat;
        let p = pixels[k as int];
        raw_scanlines(pixels.take(k as int), width) + (if k % width == 0 {
            seq![0u8]
        } else {
            seq![]
        }) + seq![p.0, p.1, p.2, 0xffu8]
    }
}

/// The length of the raw scanlines of `n` pixels in rows of `width`.
pub open spec fn scanline_len(n: nat, width: nat) -> nat {
    (4 * width + 1) * (n / width) + if n % width == 0 {
        0
    } else {
        4 * (n % width) + 1
    }
}

proof fn lemma_scanline_len_step(n: nat, w: nat)
    requires
        w > 0,
    ensures
        scanline_len(n + 1, w) == scanline_len(n, w) + (if n % w == 0 {
            1nat
        } else {
            0nat
        }) + 4,
{
    let q = n / w;
    let r = n % w;
    lemma_fundamental_div_mod(n as int, w as int);
    if r + 1 < w {
        lemma_fundamental_div_mod_converse((n + 1) as int, w as int, q as int, (r + 1) as int);
    } else {
        assert((n + 1) as int == (q + 1) * w + 0) by (nonlinear_arith)
            requires
                n == w * q + r,
                r + 1 == w,
        ;
        lemma_fundamental_div_mod_converse((n + 1) as int, w as int, (q + 1) as int, 0);
        assert((4 * w + 1) * (q + 1) == (4 * w + 1) * q + 4 * w + 1) by (nonlinear_arith);
    }
}

proof fn lemma_raw_scanlines_len(pixels: Seq<(u8, u8, u8)>, w: nat)
    requires
        w > 0,
    ensures
        raw_scanlines(pixels, w).len() == scanline_len(pixels.len(), w),
    decreases pixels.len(),
{
    if pixels.len() > 0 {
        let k = (pixels.len() - 1) as nat;
        lemma_raw_scanlines_len(pixels.take(k as int), w);
        lemma_scanline_len_step(k, w);
        assert(pixels.take(k as int).len() == k);
        assert(raw_scanlines(pixels, w).len() == raw_scanlines(pixels.take(k as int), w).len() + (
        if k % w == 0 {
            1nat
        } else {
            0nat
        }) + 4);
    } else {
        assert(scanline_len(0, w) == 0) by (nonlinear_arith)
            requires
                w > 0,
        ;
    }
}

/// A new row starts exactly where the raw data length is a multiple of the
/// row length.
proof fn lemma_row_start(n: nat, w: nat)
    requires
        w > 0,
    ensures
        (scanline_len(n, w) % (4 * w + 1) == 0) == (n % w == 0),
{
    let q = n / w;
    let r = n % w;
    lemma_fundamental_div_mod(n as int, w as int);
    let extra: int = if r == 0 {
        0
    } else {
        (4 * r + 1) as int
    };
    assert(scanline_len(n, w) == q * (4 * w + 1) + extra) by (nonlinear_arith)
        requires
            scanline_len(n, w) == (4 * w + 1) * q + extra,
    ;
    lemma_fundamental_div_mod_converse(scanline_len(n, w) as int, (4 * w + 1) as int, q as int, extra);
}

proof fn lemma_scanline_len_bound(n: nat, w: nat, h: nat)
    requires
        w > 0,
        n <= w * h,
    ensures
        scanline_len(n, w) <= (4 * w + 1) * h,
{
    let q = n / w;
    let r = n % w;
    lemma_fundamental_div_mod(n as int, w as int);
    if r == 0 {
        assert(q <= h) by (nonlinear_arith)
            requires
                n == w * q,
                n <= w * h,
                w > 0,
        ;
        assert((4 * w + 1) * q <= (4 * w + 1) * h) by (nonlinear_arith)
            requires
                q <= h,
        ;
    } else {
        assert(q + 1 <= h) by (nonlinear_arith)
            requires
                n == w * q + r,
                0 < r < w,
                n <= w * h,
        ;
        assert((4 * w + 1) * q + 4 * r + 1 <= (4 * w + 1) * h) by (nonlinear_arith)
            requires
                q + 1 <= h,
                r < w,
        ;
    }
}

/// A complete image of `width * height` pixels takes exactly `height` rows
/// of one filter byte and four bytes per pixel.
pub proof fn lemma_full_image_len(pixels: Seq<(u8, u8, u8)>, width: nat, height: nat)
    requires
        width > 0,
        pixels.len() == width * height,
    ensures
        raw_scanlines(pixels, width).len() == (4 * width + 1) * height,
{
    lemma_raw_scanlines_len(pixels, width);
    assert(pixels.len() == height * width + 0) by (nonlinear_arith)
        requires
            pixels.len() == width * height,
    ;
    lemma_fundamental_div_mod_converse(pixels.len() as int, width as int, height as int, 0);
}

/// Appends the four letters of a chunk type.
fn push_tag(out: &mut Vec<u8>, chunk_type: ChunkType)
    ensures
        final(out)@ == old(out)@ + chunk_tag(chunk_type),
{
    match chunk_type {
        ChunkType::Header => {
            out.push(0x49);
            out.push(0x48);
            out.push(0x44);
            out.push(0x52);
        },
        ChunkType::Data => {
            out.push(0x49);
            out.push(0x44);
            out.push(0x41);
            out.push(0x54);
        },
        ChunkType::End => {
            out.push(0x49);
            out.push(0x45);
            out.push(0x4e);
            out.push(0x44);
        },
    }
    assert(out@ =~= old(out)@ + chunk_tag(chunk_type));
}

/// Frames `data` as a chunk of the given type closed by `crc`.
pub fn frame_chunk(chunk_type: ChunkType, data: &[u8], crc: u32) -> (r: Vec<u8>)
    requires
        data@.len() <= u32::MAX,
    ensures
        r@ == framed_chunk(chunk_type, data@, crc),
{
    let mut out: Vec<u8> = Vec::new();
    push_be(&mut out, data.len() as u32);
    push_tag(&mut out, chunk_type);
    push_range(&mut out, data, 0, data.len());
    push_be(&mut out, crc);
    assert(data@.subrange(0, data@.len() as int) =~= data@);
    assert(out@ =~= framed_chunk(chunk_type, data@, crc));
    out
}

/// Frames `data` as a chunk of the given type, checksummed over its tag
/// and payload.
pub fn chunk_bytes(chunk_type: ChunkType, data: &[u8]) -> (r: Vec<u8>)
    requires
        data@.len() <= u32::MAX,
    ensures
        r@ == png_chunk(chunk_type, data@),
{
    let mut covered: Vec<u8> = Vec::new();
    push_tag(&mut covered, chunk_type);
    push_range(&mut covered, data, 0, data.len());
    assert(data@.subrange(0, data@.len() as int) =~= data@);
    let crc = crc32_checksum(covered.as_slice());
    frame_chunk(chunk_type, data, crc)
}

/// The signature and image header chunk of a PNG file.
pub fn header_bytes(width: i32, height: i32) -> (r: Vec<u8>)
    ensures
        r@ == png_header(width, height),
{
    let mut fields: Vec<u8> = Vec::new();
    push_be(&mut fields, width as u32);
    push_be(&mut fields, height as u32);
    fields.push(8);
    fields.push(6);
    fields.push(0);
    fields.push(0);
    fields.push(0);
    assert(fields@ =~= header_fields(width as u32, height as u32));
    let chunk = chunk_bytes(ChunkType::Header, fields.as_slice());
    let mut out: Vec<u8> = Vec::new();
    out.push(0x89);
    out.push(0x50);
    out.push(0x4e);
    out.push(0x47);
    out.push(0x0d);
    out.push(0x0a);
    out.push(0x1a);
    out.push(0x0a);
    assert(out@ =~= png_signature());
    push_range(&mut out, chunk.as_slice(), 0, chunk.len());
    assert(chunk@.subrange(0, chunk@.len() as int) =~= chunk@);
    out
}

/// Collects the pixels of an image, in the order they are written, as PNG
/// scanline data.
pub struct PngWriter {
    data: Vec<u8>,
    width: i32,
    height: i32,
    pixels: Ghost<Seq<(u8, u8, u8)>>,
}

impl PngWriter {
    /// The image width in pixels.
    pub closed spec fn width(&self) -> int {
        self.width as int
    }

    /// The image height in pixels.
    pub closed spec fn height(&self) -> int {
        self.height as int
    }

    /// The pixels written so far, as red, green and blue.
    pub closed spec fn pixels(&self) -> Seq<(u8, u8, u8)> {
        self.pixels@
    }

    /// The size fits the format, no more pixels than the image holds were
    /// written, and the buffer holds exactly their scanlines.
    pub closed spec fn wf(&self) -> bool {
        &&& 0 < self.width
        &&& 0 < self.height
        &&& (4 * self.width + 1) * self.height <= MAX_IMAGE_BYTES
        &&& self.pixels@.len() <= self.width * self.height
        &&& self.data@ == raw_scanlines(self.pixels@, self.width as nat)
    }

    /// An empty image of the given size.
    pub fn new(width: i32, height: i32) -> (r: PngWriter)
        requires
            0 < width,
            0 < height,
            (4 * width + 1) * height <= MAX_IMAGE_BYTES,
        ensures
            r.wf(),
            r.width() == width,
            r.height() == height,
            r.pixels() == Seq::<(u8, u8, u8)>::empty(),
    {
        proof {
            assert(4 * width + 1 <= (4 * width + 1) * height) by (nonlinear_arith)
                requires
                    0 < height,
                    0 < width,
            ;
        }
        let capacity = (4 * width as usize + 1) * height as usize;
        PngWriter {
            data: Vec::with_capacity(capacity),
            width,
            height,
            pixels: Ghost(Seq::empty()),
        }
    }

    /// Appends the next pixel; a new scanline opens with its filter byte.
    pub fn write_pixel(&mut self, red: u8, green: u8, blue: u8)
        requires
            old(self).wf(),
            old(self).pixels().len() < old(self).width() * old(self).height(),
        ensures
            final(self).wf(),
            final(self).width() == old(self).width(),
            final(self).height() == old(self).height(),
            final(self).pixels() == old(self).pixels().push((red, green, blue)),
    {
        let ghost w = self.width as nat;
        let ghost n = self.pixels@.len();
        let ghost old_pixels = self.pixels@;
        proof {
            lemma_raw_scanlines_len(old_pixels, w);
            lemma_row_start(n, w);
            assert(4 * self.width + 1 <= (4 * self.width + 1) * self.height) by (nonlinear_arith)
                requires
                    0 < self.height,
                    0 < self.width,
            ;
        }
        let row_len = self.width as usize * 4 + 1;
        if self.data.len() % row_len == 0 {
            self.data.push(0);
        }
        self.data.push(red);
        self.data.push(green);
        self.data.push(blue);
        self.data.push(0xff);
        self.pixels = Ghost(old_pixels.push((red, green, blue)));
        proof {
            assert(self.pixels@.take(n as int) =~= old_pixels);
            assert(self.data@ =~= raw_scanlines(self.pixels@, w));
        }
    }

    /// The image data chunk, holding the scanlines compressed as a zlib
    /// stream, followed by the end chunk.
    pub fn finish(&self) -> (r: Vec<u8>)
        requires
            self.wf(),
        ensures
            r@ == png_trailer(raw_scanlines(self.pixels(), self.width() as nat)),
    {
        let ghost w = self.width as nat;
        let ghost h = self.height as nat;
        let ghost len = self.data@.len();
        proof {
            lemma_raw_scanlines_len(self.pixels@, w);
            lemma_scanline_len_bound(self.pixels@.len(), w, h);
            lemma_stored_blocks_len(self.data@);
            assert(len / 65530 <= 32757) by (nonlinear_arith)
                requires
                    len <= 0x7ff0_0000,
            ;
        }
        let compressed = compress(self.data.as_slice());
        let mut out = chunk_bytes(ChunkType::Data, compressed.as_slice());
        let empty: Vec<u8> = Vec::new();
        let end = chunk_bytes(ChunkType::End, empty.as_slice());
        let ghost first = out@;
        push_range(&mut out, end.as_slice(), 0, end.len());
        proof {
            assert(end@.subrange(0, end@.len() as int) =~= end@);
            assert(empty@ =~= Seq::<u8>::empty());
        }
        out
    }
}

} // verus!
