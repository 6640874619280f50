//! The engine-side image pipeline: recognising an image format from its
//! magic bytes, reading the dimensions from its header, producing the
//! decoded pixel buffer, and caching decoded images by content.
#![verifier::loop_isolation(false)]

use std::rc::Rc;

use vstd::prelude::*;

use crate::cache::{spec_insert, spec_lookup, spec_touch, LruCache};
use crate::text::{decimal, decimal_exec, extend_chars, extend_str, string_from_chars};

verus! {

broadcast use vstd::seq_lib::group_seq_properties;

/// The image formats the engine recognises.
#[derive(Debug, Clone, Copy, PartialEq, Eq, Structural)]
pub enum ImageFormat {
    Png,
    Jpeg,
    Bmp,
    Gif,
    WebP,
    Tiff,
    Svg,
}

/// A decoded image: its id, format, dimensions and RGBA pixel bytes.
#[derive(Debug, Clone)]
pub struct DecodeImage {
    pub id: String,
    pub format: ImageFormat,
    pub width: u32,
    pub height: u32,
    pub data: Vec<u8>,
}

// ─── Format detection ────────────────────────────────────────────

/// `d` starts with the bytes `p`.
pub open spec fn has_prefix(d: Seq<u8>, p: Seq<u8>) -> bool {
    p.len() <= d.len() && d.subrange(0, p.len() as int) == p
}

/// The ASCII bytes of `<svg`.
pub open spec fn svg_tag() -> Seq<u8> {
    seq![0x3Cu8, 0x73u8, 0x76u8, 0x67u8]
}

/// `<svg` occurs within the first 1024 bytes.
pub open spec fn has_svg_tag(d: Seq<u8>) -> bool {
    exists|i: int|
        0 <= i && i + 4 <= d.len() && i + 4 <= 1024 && #[trigger] d.subrange(i, i + 4) == svg_tag()
}

/// The format the magic bytes name: the PNG signature, `FF D8 FF` (JPEG),
/// `BM`, `GIF`, `RIFF....WEBP`, `II*\0` or `MM\0*` (TIFF), or `<svg` in
/// the first 1024 bytes; checked in that order.
pub open spec fn spec_detect_image_format(d: Seq<u8>) -> Option<ImageFormat> {
    if has_prefix(d, seq![0x89u8, 0x50u8, 0x4Eu8, 0x47u8, 0x0Du8, 0x0Au8, 0x1Au8, 0x0Au8]) {
        Some(ImageFormat::Png)
    } else if has_prefix(d, seq![0xFFu8, 0xD8u8, 0xFFu8]) {
        Some(ImageFormat::Jpeg)
    } else if has_prefix(d, seq![0x42u8, 0x4Du8]) {
        Some(ImageFormat::Bmp)
    } else if has_prefix(d, seq![0x47u8, 0x49u8, 0x46u8]) {
        Some(ImageFormat::Gif)
    } else if has_prefix(d, seq![0x52u8, 0x49u8, 0x46u8, 0x46u8]) && d.len() >= 12 && d.subrange(8, 12)
        == seq![0x57u8, 0x45u8, 0x42u8, 0x50u8] {
        Some(ImageFormat::WebP)
    } else if has_prefix(d, seq![0x49u8, 0x49u8, 0x2Au8, 0x00u8]) || has_prefix(
        d,
        seq![0x4Du8, 0x4Du8, 0x00u8, 0x2Au8],
    ) {
        Some(ImageFormat::Tiff)
    } else if has_svg_tag(d) {
        Some(ImageFormat::Svg)
    } else {
        None
    }
}

/// Whether `d` holds the bytes of `p` from position `at`.
fn bytes_at(d: &[u8], at: usize, p: &[u8]) -> (res: bool)
    requires
        at <= d@.len(),
    ensures
        res == (at + p@.len() <= d@.len() && d@.subrange(at as int, at + p@.len()) == p@),
{
    if d.len() - at < p.len() {
        return false;
    }
    let mut k: usize = 0;
    while k < p.len()
        invariant
            at + p@.len() <= d@.len(),
            k <= p@.len(),
            forall|j: int| 0 <= j < k ==> d@[at + j] == p@[j],
        decreases p@.len() - k,
    {
        if d[at + k] != p[k] {
            assert(d@.subrange(at as int, at + p@.len())[k as int] != p@[k as int]);
            return false;
        }
        k += 1;
    }
    assert(d@.subrange(at as int, at + p@.len()) =~= p@);
    true
}

/// Whether `<svg` occurs within the first 1024 bytes.
fn find_svg_tag(d: &[u8]) -> (res: bool)
    ensures
        res == has_svg_tag(d@),
{
    let tag = vec![0x3Cu8, 0x73u8, 0x76u8, 0x67u8];
    assert(tag@ =~= svg_tag());
    let head = if d.len() < 1024 {
        d.len()
    } else {
        1024
    };
    if head < 4 {
        return false;
    }
    let mut i: usize = 0;
    while i <= head - 4
        invariant
            4 <= head,
            head <= d@.len(),
            head <= 1024,
            tag@ == svg_tag(),
            forall|j: int| 0 <= j < i ==> #[trigger] d@.subrange(j, j + 4) != svg_tag(),
        decreases head - i,
    {
        if bytes_at(d, i, tag.as_slice()) {
            return true;
        }
        i += 1;
    }
    assert forall|j: int| 0 <= j && j + 4 <= d@.len() && j + 4 <= 1024 implies #[trigger] d@.subrange(j, j + 4) != svg_tag() by {
        assert(j < i);
    }
    false
}

/// Recognise an image format from its magic bytes.
pub fn detect_image_format(data: &[u8]) -> (res: Option<ImageFormat>)
    ensures
        res == spec_detect_image_format(data@),
{
    let png = vec![0x89u8, 0x50u8, 0x4Eu8, 0x47u8, 0x0Du8, 0x0Au8, 0x1Au8, 0x0Au8];
    let jpeg = vec![0xFFu8, 0xD8u8, 0xFFu8];
    let bmp = vec![0x42u8, 0x4Du8];
    let gif = vec![0x47u8, 0x49u8, 0x46u8];
    let riff = vec![0x52u8, 0x49u8, 0x46u8, 0x46u8];
    let webp = vec![0x57u8, 0x45u8, 0x42u8, 0x50u8];
    let tiff_le = vec![0x49u8, 0x49u8, 0x2Au8, 0x00u8];
    let tiff_be = vec![0x4Du8, 0x4Du8, 0x00u8, 0x2Au8];
    if bytes_at(data, 0, png.as_slice()) {
        Some(ImageFormat::Png)
    } else if bytes_at(data, 0, jpeg.as_slice()) {
        Some(ImageFormat::Jpeg)
    } else if bytes_at(data, 0, bmp.as_slice()) {
        Some(ImageFormat::Bmp)
    } else if bytes_at(data, 0, gif.as_slice()) {
        Some(ImageFormat::Gif)
    } else if bytes_at(data, 0, riff.as_slice()) && data.len() >= 12 && bytes_at(
        data,
        8,
        webp.as_slice(),
    ) {
        Some(ImageFormat::WebP)
    } else if bytes_at(data, 0, tiff_le.as_slice()) || bytes_at(data, 0, tiff_be.as_slice()) {
        Some(ImageFormat::Tiff)
    } else if find_svg_tag(data) {
        Some(ImageFormat::Svg)
    } else {
        None
    }
}

// ─── Dimensions ──────────────────────────────────────────────────

/// The fallback size when a header gives none: 300 by 150.
pub open spec fn fallback_dims() -> (nat, nat) {
    (300, 150)
}

/// Zero counts as one.
pub open spec fn at_least_one(x: nat) -> nat {
    if x == 0 {
        1
    } else {
        x
    }
}

/// A big-endian 16-bit value.
pub open spec fn be16(a: u8, b: u8) -> nat {
    (a as nat) * 256 + (b as nat)
}

/// A little-endian 16-bit value.
pub open spec fn le16(a: u8, b: u8) -> nat {
    (a as nat) + (b as nat) * 256
}

/// A big-endian 32-bit value.
pub open spec fn be32(d: Seq<u8>, i: int) -> nat {
    (d[i] as nat) * 0x1000000 + (d[i + 1] as nat) * 0x10000 + (d[i + 2] as nat) * 0x100 + (d[i
        + 3] as nat)
}

/// The magnitude of a little-endian 32-bit two's-complement value.
pub open spec fn le32_abs(d: Seq<u8>, i: int) -> nat {
    let u = (d[i] as nat) + (d[i + 1] as nat) * 0x100 + (d[i + 2] as nat) * 0x10000 + (d[i
        + 3] as nat) * 0x1000000;
    if u >= 0x80000000 {
        (0x100000000 - u) as nat
    } else {
        u
    }
}

/// A JPEG start-of-frame marker (the baseline, progressive and lossless
/// variants, not `C4`, `C8` or `CC`).
pub open spec fn is_sof(m: u8) -> bool {
    (0xC0 <= m <= 0xC3) || (0xC5 <= m <= 0xC7) || (0xC9 <= m <= 0xCB) || (0xCD <= m <= 0xCF)
}

/// The JPEG start-of-frame markers: baseline `C0`, extended `C1`,
/// progressive `C2`, lossless `C3`, and their differential (`C5`–`C7`),
/// arithmetic-coded (`C9`–`CB`) and differential arithmetic (`CD`–`CF`)
/// forms. `C4` (Huffman tables), `C8` (reserved) and `CC` (arithmetic
/// conditioning) are not frames.
pub open spec fn frame_marker(m: u8) -> bool {
    m == 0xC0u8 || m == 0xC1u8 || m == 0xC2u8 || m == 0xC3u8 || m == 0xC5u8 || m == 0xC6u8 || m == 0xC7u8 || m == 0xC9u8 || m == 0xCAu8 || m == 0xCBu8 || m == 0xCDu8 || m == 0xCEu8 || m == 0xCFu8
}

/// A JPEG's size comes from its first frame header, whatever kind of frame
/// it starts: when the segment at `i` is a complete frame segment (`FF`,
/// a start-of-frame marker, a length of at least 2 that fits the data, and
/// the five bytes of precision, height and width), the size is its width and
/// height, each at least 1. A segment of any other kind that fits is
/// skipped and the walk goes on after it.
pub proof fn lemma_jpeg_frame_gives_size(d: Seq<u8>, i: int)
    requires
        0 <= i,
        i + 3 < d.len(),
        d[i] == 0xFF,
        d[i + 1] != 0xD9,
        d[i + 1] != 0xDA,
        2 <= (d[i + 2] as nat) * 256 + (d[i + 3] as nat),
        i + 2 + (d[i + 2] as nat) * 256 + (d[i + 3] as nat) <= d.len(),
    ensures
        frame_marker(d[i + 1]) && i + 9 < d.len() ==> ({
            let w = (d[i + 7] as nat) * 256 + (d[i + 8] as nat);
            let h = (d[i + 5] as nat) * 256 + (d[i + 6] as nat);
            jpeg_dims(d, i) == (if w == 0 { 1 } else { w }, if h == 0 { 1 } else { h })
        }),
        !frame_marker(d[i + 1]) ==> jpeg_dims(d, i) == jpeg_dims(d, i + 2 + (d[i + 2] as nat) * 256 + (d[i + 3] as nat)),
{
}

/// For an image whose first segment after the start-of-image marker is a
/// complete frame header, the dimensions read are that frame's width and
/// height, each at least 1, for every kind of frame.
pub proof fn lemma_jpeg_first_frame(d: Seq<u8>)
    requires
        d.len() > 11,
        d[2] == 0xFF,
        frame_marker(d[3]),
        2 <= (d[4] as nat) * 256 + (d[5] as nat),
        4 + (d[4] as nat) * 256 + (d[5] as nat) <= d.len(),
    ensures
        ({
            let w = (d[9] as nat) * 256 + (d[10] as nat);
            let h = (d[7] as nat) * 256 + (d[8] as nat);
            spec_image_dimensions(ImageFormat::Jpeg, d) == (if w == 0 { 1 } else { w }, if h == 0 { 1 } else { h })
        }),
{
    lemma_jpeg_frame_gives_size(d, 2);
}

/// The size a JPEG reports, walking its segments from position `i`: the
/// first start-of-frame segment gives (width, height); the walk gives up
/// with the fallback at a byte that is not `FF`, at the end-of-image or
/// start-of-scan marker, or at a truncated segment.
pub open spec fn jpeg_dims(d: Seq<u8>, i: int) -> (nat, nat)
    decreases d.len() - i,
{
    if !(0 <= i && i + 1 < d.len()) || d[i] != 0xFF {
        fallback_dims()
    } else {
        let marker = d[i + 1];
        let j = i + 2;
        if marker == 0xD9 || marker == 0xDA || j + 1 >= d.len() {
            fallback_dims()
        } else {
            let length = be16(d[j], d[j + 1]);
            let k = j + 2;
            if length < 2 || k + length - 2 > d.len() {
                fallback_dims()
            } else if is_sof(marker) {
                if k + 5 < d.len() {
                    (at_least_one(be16(d[k + 3], d[k + 4])), at_least_one(be16(d[k + 1], d[k + 2])))
                } else {
                    fallback_dims()
                }
            } else {
                jpeg_dims(d, k + length - 2)
            }
        }
    }
}

/// The (width, height) an image header gives, each at least one, or the
/// fallback for a short header or a format without dimensions here.
pub open spec fn spec_image_dimensions(format: ImageFormat, d: Seq<u8>) -> (nat, nat) {
    match format {
        ImageFormat::Png => if d.len() >= 24 {
            (at_least_one(be32(d, 16)), at_least_one(be32(d, 20)))
        } else {
            fallback_dims()
        },
        ImageFormat::Jpeg => jpeg_dims(d, 2),
        ImageFormat::Bmp => if d.len() >= 26 {
            (at_least_one(le32_abs(d, 18)), at_least_one(le32_abs(d, 22)))
        } else {
            fallback_dims()
        },
        ImageFormat::Gif => if d.len() >= 10 {
            (at_least_one(le16(d[6], d[7])), at_least_one(le16(d[8], d[9])))
        } else {
            fallback_dims()
        },
        _ => fallback_dims(),
    }
}

proof fn lemma_jpeg_dims_positive(d: Seq<u8>, i: int)
    ensures
        jpeg_dims(d, i).0 >= 1,
        jpeg_dims(d, i).1 >= 1,
        jpeg_dims(d, i).0 <= 0xFFFF,
        jpeg_dims(d, i).1 <= 0xFFFF,
    decreases d.len() - i,
{
    if 0 <= i && i + 1 < d.len() && d[i] == 0xFF {
        let j = i + 2;
        let marker = d[i + 1];
        if !(marker == 0xD9 || marker == 0xDA || j + 1 >= d.len()) {
            let length = be16(d[j], d[j + 1]);
            let k = j + 2;
            if !(length < 2 || k + length - 2 > d.len()) && !is_sof(marker) {
                lemma_jpeg_dims_positive(d, k + length - 2);
            }
        }
    }
}

pub proof fn lemma_dimensions_positive(format: ImageFormat, d: Seq<u8>)
    ensures
        spec_image_dimensions(format, d).0 >= 1,
        spec_image_dimensions(format, d).1 >= 1,
{
    if format is Jpeg {
        lemma_jpeg_dims_positive(d, 2);
    }
}

fn read_be32(d: &[u8], i: usize) -> (res: u32)
    requires
        i + 4 <= d@.len(),
    ensures
        res as nat == be32(d@, i as int),
{
    (d[i] as u32) * 0x1000000 + (d[i + 1] as u32) * 0x10000 + (d[i + 2] as u32) * 0x100 + (d[i
        + 3] as u32)
}

fn read_le32_abs(d: &[u8], i: usize) -> (res: u32)
    requires
        i + 4 <= d@.len(),
    ensures
        res as nat == le32_abs(d@, i as int),
{
    let u: u64 = (d[i] as u64) + (d[i + 1] as u64) * 0x100 + (d[i + 2] as u64) * 0x10000 + (d[i
        + 3] as u64) * 0x1000000;
    if u >= 0x80000000 {
        (0x100000000 - u) as u32
    } else {
        u as u32
    }
}

fn at_least_one_exec(x: u32) -> (res: u32)
    ensures
        res as nat == at_least_one(x as nat),
{
    if x == 0 {
        1
    } else {
        x
    }
}

/// The size a JPEG reports (see `jpeg_dims`).
fn jpeg_dimensions(d: &[u8]) -> (res: (u32, u32))
    ensures
        (res.0 as nat, res.1 as nat) == jpeg_dims(d@, 2),
{
    let mut i: usize = 2;
    while i < d.len() && d.len() - i > 1
        invariant
            2 <= i,
            jpeg_dims(d@, i as int) == jpeg_dims(d@, 2),
        decreases d@.len() - i,
    {
        if d[i] != 0xFF {
            break;
        }
        let marker = d[i + 1];
        i += 2;
        if marker == 0xD9 || marker == 0xDA {
            break;
        }
        if d.len() - i <= 1 {
            break;
        }
        let length = (d[i] as usize) * 256 + (d[i + 1] as usize);
        i += 2;
        if length < 2 || length - 2 > d.len() - i {
            break;
        }
        if (0xC0 <= marker && marker <= 0xC3) || (0xC5 <= marker && marker <= 0xC7) || (0xC9
            <= marker && marker <= 0xCB) || (0xCD <= marker && marker <= 0xCF) {
            if d.len() - i > 5 {
                let height = (d[i + 1] as u32) * 256 + (d[i + 2] as u32);
                let width = (d[i + 3] as u32) * 256 + (d[i + 4] as u32);
                return (at_least_one_exec(width), at_least_one_exec(height));
            }
            break;
        }
        i += length - 2;
    }
    (300, 150)
}

/// The (width, height) in an image's header, each at least one, with a
/// 300 by 150 fallback.
pub fn parse_image_dimensions(format: ImageFormat, data: &[u8]) -> (res: (u32, u32))
    ensures
        (res.0 as nat, res.1 as nat) == spec_image_dimensions(format, data@),
{
    match format {
        ImageFormat::Png => if data.len() >= 24 {
            (at_least_one_exec(read_be32(data, 16)), at_least_one_exec(read_be32(data, 20)))
        } else {
            (300, 150)
        },
        ImageFormat::Jpeg => jpeg_dimensions(data),
        ImageFormat::Bmp => if data.len() >= 26 {
            (at_least_one_exec(read_le32_abs(data, 18)), at_least_one_exec(read_le32_abs(data, 22)))
        } else {
            (300, 150)
        },
        ImageFormat::Gif => if data.len() >= 10 {
            let width = (data[6] as u32) + (data[7] as u32) * 256;
            let height = (data[8] as u32) + (data[9] as u32) * 256;
            (at_least_one_exec(width), at_least_one_exec(height))
        } else {
            (300, 150)
        },
        _ => (300, 150),
    }
}

// ─── Decoding ────────────────────────────────────────────────────

/// The pixel buffer the decoder produces: `n` bytes, byte `k` being
/// `k` modulo the input length (at least one), truncated to a byte.
pub open spec fn spec_pixels(n: nat, input_len: nat) -> Seq<u8> {
    Seq::new(n, |k: int| (k % (at_least_one(input_len) as int)) as u8)
}

/// `img` is what decoding `d` under the id `id` gives: the format the
/// magic bytes name, the header's dimensions, and a 4-byte-per-pixel
/// buffer.
pub open spec fn decodes_to(id: Seq<char>, d: Seq<u8>, img: DecodeImage) -> bool {
    match spec_detect_image_format(d) {
        Some(f) => {
            let dims = spec_image_dimensions(f, d);
            &&& img.id@ == id
            &&& img.format == f
            &&& img.width as nat == dims.0
            &&& img.height as nat == dims.1
            &&& img.data@ == spec_pixels(dims.0 * dims.1 * 4, d.len())
        },
        None => false,
    }
}

/// The decoded buffer of a recognised image fits in memory.
pub open spec fn decode_size_ok(d: Seq<u8>) -> bool {
    match spec_detect_image_format(d) {
        Some(f) => {
            let dims = spec_image_dimensions(f, d);
            dims.0 * dims.1 * 4 <= usize::MAX
        },
        None => true,
    }
}

/// The error for data in no recognised format.
pub open spec fn unknown_format_message(id: Seq<char>) -> Seq<char> {
    "Unknown image format for '"@ + id + "'"@
}

/// The image decoder.
pub struct ImageDecoder;

impl Default for ImageDecoder {
    fn default() -> (res: Self)
        ensures
            res == ImageDecoder,
    {
        ImageDecoder::new()
    }
}

impl ImageDecoder {
    pub fn new() -> (res: Self)
        ensures
            res == ImageDecoder,
    {
        ImageDecoder
    }

    /// Decode `data` under the id `id`; an error when its format is not
    /// recognised.
    pub fn decode_image(&self, id: &str, data: &[u8]) -> (res: Result<DecodeImage, String>)
        requires
            decode_size_ok(data@),
        ensures
            spec_detect_image_format(data@) is None ==> (res matches Err(e) && e@
                == unknown_format_message(id@)),
            spec_detect_image_format(data@) is Some ==> (res matches Ok(img) && decodes_to(
                id@,
                data@,
                img,
            )),
    {
        let format = match detect_image_format(data) {
            Some(f) => f,
            None => {
                let mut msg: Vec<char> = Vec::new();
                extend_str(&mut msg, "Unknown image format for '");
                extend_str(&mut msg, id);
                extend_str(&mut msg, "'");
                return Err(string_from_chars(msg.as_slice()));
            },
        };
        let (width, height) = parse_image_dimensions(format, data);
        let ghost dims = spec_image_dimensions(format, data@);
        proof {
            lemma_dimensions_positive(format, data@);
        }
        let w = width as usize;
        let h = height as usize;
        assert(w * h * 4 <= usize::MAX);
        assert(w * h <= w * h * 4) by (nonlinear_arith)
            requires
                w >= 1,
                h >= 1,
        ;
        let pixel_count = w * h;
        let n = pixel_count * 4;
        let m = if data.len() == 0 {
            1
        } else {
            data.len()
        };
        let mut decoded: Vec<u8> = Vec::new();
        let mut index: usize = 0;
        while index < n
            invariant
                index <= n,
                m as nat == at_least_one(data@.len()),
                decoded@ == spec_pixels(n as nat, data@.len()).take(index as int),
            decreases n - index,
        {
            decoded.push(#[verifier::truncate] ((index % m) as u8));
            index += 1;
            assert(decoded@ =~= spec_pixels(n as nat, data@.len()).take(index as int));
        }
        assert(decoded@ =~= spec_pixels(n as nat, data@.len()));
        Ok(DecodeImage { id: id.to_string(), format, width, height, data: decoded })
    }
}

// ─── The decoded-image cache ─────────────────────────────────────

/// 64-bit FNV-1a over the bytes.
pub open spec fn fnv1a(d: Seq<u8>) -> u64
    decreases d.len(),
{
    if d.len() == 0 {
        0xcbf29ce484222325
    } else {
        vstd::wrapping::u64_specs::wrapping_mul(
            fnv1a(d.drop_last()) ^ (d.last() as u64),
            0x100000001b3,
        )
    }
}

/// 64-bit FNV-1a over the bytes.
pub fn hash_bytes(data: &[u8]) -> (res: u64)
    ensures
        res == fnv1a(data@),
{
    let mut hash: u64 = 0xcbf29ce484222325;
    let mut i: usize = 0;
    while i < data.len()
        invariant
            i <= data@.len(),
            hash == fnv1a(data@.take(i as int)),
        decreases data@.len() - i,
    {
        assert(data@.take(i as int + 1).drop_last() =~= data@.take(i as int));
        hash = (hash ^ (data[i] as u64)).wrapping_mul(0x100000001b3);
        i += 1;
    }
    assert(data@.take(data@.len() as int) =~= data@);
    hash
}

/// The cache key of an image: `id:length:hash`.
pub open spec fn cache_key(id: Seq<char>, d: Seq<u8>) -> Seq<char> {
    id + ":"@ + decimal(d.len()) + ":"@ + decimal(fnv1a(d) as nat)
}

/// `Rc::clone`: another pointer to the same value.
#[verifier::external_body]
fn share<T>(r: &Rc<T>) -> (res: Rc<T>)
    ensures
        res == *r,
{
    Rc::clone(r)
}

/// Decoded images by content, at most 32 of them, least recently used
/// evicted first.
pub struct ImageCache {
    cache: LruCache<String, Rc<DecodeImage>>,
    decoder: ImageDecoder,
}

impl ImageCache {
    /// The cache holds at most 32 images.
    pub closed spec fn wf(&self) -> bool {
        &&& self.cache.wf()
        &&& self.cache.capacity() == 32
    }

    /// The cached images by key, least recently used first.
    pub closed spec fn entries(&self) -> Seq<(Seq<char>, Rc<DecodeImage>)> {
        self.cache@
    }

    /// An empty cache.
    pub fn new() -> (res: Self)
        ensures
            res.wf(),
            res.entries() == Seq::<(Seq<char>, Rc<DecodeImage>)>::empty(),
    {
        ImageCache { cache: LruCache::new(32), decoder: ImageDecoder::new() }
    }

    /// The decoded image for `data` under the id `id`: the cached one for
    /// the same id, length and content hash, or a fresh decode that is then
    /// cached; a decode error is returned and nothing is cached.
    pub fn get_or_decode(&mut self, id: &str, data: &[u8]) -> (res: Result<Rc<DecodeImage>, String>)
        requires
            old(self).wf(),
            decode_size_ok(data@),
        ensures
            final(self).wf(),
            ({
                let k = cache_key(id@, data@);
                match spec_lookup(old(self).entries(), k) {
                    Some(img) => res == Ok::<Rc<DecodeImage>, String>(img) && final(self).entries()
                        == spec_touch(old(self).entries(), k),
                    None => if spec_detect_image_format(data@) is None {
                        res matches Err(e) && e@ == unknown_format_message(id@) && final(self).entries()
                            == old(self).entries()
                    } else {
                        res matches Ok(img) && decodes_to(id@, data@, *img) && final(self).entries()
                            == spec_insert(old(self).entries(), 32, k, img)
                    },
                }
            }),
    {
        let mut key: Vec<char> = Vec::new();
        extend_str(&mut key, id);
        key.push(':');
        let len_digits = decimal_exec(data.len() as u128);
        extend_chars(&mut key, len_digits.as_slice());
        key.push(':');
        let hash_digits = decimal_exec(hash_bytes(data) as u128);
        extend_chars(&mut key, hash_digits.as_slice());
        let cache_key_string = string_from_chars(key.as_slice());
        proof {
            reveal_strlit(":");
        }
        assert(cache_key_string@ =~= cache_key(id@, data@));
        match self.cache.get(&cache_key_string) {
            Some(cached) => {
                return Ok(share(cached));
            },
            None => {},
        }
        let decoded = Rc::new(self.decoder.decode_image(id, data)?);
        self.cache.insert(cache_key_string, share(&decoded));
        Ok(decoded)
    }

    /// The number of cached images.
    pub fn len(&self) -> (res: usize)
        requires
            self.wf(),
        ensures
            res == self.entries().len(),
    {
        self.cache.len()
    }

    /// Whether no image is cached.
    pub fn is_empty(&self) -> (res: bool)
        requires
            self.wf(),
        ensures
            res == (self.entries().len() == 0),
    {
        self.cache.is_empty()
    }
}

impl Default for ImageCache {
    fn default() -> (res: Self)
        ensures
            res.wf(),
            res.entries() == Seq::<(Seq<char>, Rc<DecodeImage>)>::empty(),
    {
        ImageCache::new()
    }
}

} // verus!
