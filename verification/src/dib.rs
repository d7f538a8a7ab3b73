//! Device-independent bitmaps, the form images have on the clipboard.
//!
//! Only the two layouts that cover essentially every real clipboard image are
//! handled: 24- and 32-bit pixels, with either the default channel order or
//! explicit bit masks. Anything else is refused: a bounded failure is much better
//! than a half-decoded image that looks fine until someone pastes it.

use vstd::arithmetic::div_mod::lemma_fundamental_div_mod_converse;
use vstd::prelude::*;

verus! {

pub const BI_RGB: u32 = 0;

pub const BI_BITFIELDS: u32 = 3;

/// Wider or higher than this, and the header is taken to be corrupt.
pub const MAX_SIDE: u32 = 32_768;

pub const RED_MASK: u32 = 0x00FF_0000;

pub const GREEN_MASK: u32 = 0x0000_FF00;

pub const BLUE_MASK: u32 = 0x0000_00FF;

#[derive(Debug)]
pub struct DecodedImage {
    pub width: u32,
    pub height: u32,
    /// RGBA8, top-down.
    pub rgba: Vec<u8>,
}

/// An image as plain values.
#[verifier::ext_equal]
pub struct ImageView {
    pub width: u32,
    pub height: u32,
    pub rgba: Seq<u8>,
}

impl View for DecodedImage {
    type V = ImageView;

    open spec fn view(&self) -> ImageView {
        ImageView { width: self.width, height: self.height, rgba: self.rgba@ }
    }
}

// ---------------------------------------------------------------- little endian

pub open spec fn le16(b: Seq<u8>, i: int) -> u16 {
    (b[i] + 256 * b[i + 1]) as u16
}

pub open spec fn le32(b: Seq<u8>, i: int) -> u32 {
    (b[i] + 256 * b[i + 1] + 65_536 * b[i + 2] + 16_777_216 * b[i + 3]) as u32
}

/// A 32-bit number read as a signed one.
pub open spec fn signed(n: u32) -> int {
    if n < 0x8000_0000 {
        n as int
    } else {
        n - 0x1_0000_0000
    }
}

pub fn u16_at(bytes: &[u8], offset: usize) -> (r: Option<u16>)
    ensures
        r is Some <==> offset + 2 <= bytes@.len(),
        r matches Some(n) ==> n == le16(bytes@, offset as int),
{
    if bytes.len() < 2 || offset > bytes.len() - 2 {
        return None;
    }
    Some(bytes[offset] as u16 + 256 * bytes[offset + 1] as u16)
}

pub fn u32_at(bytes: &[u8], offset: usize) -> (r: Option<u32>)
    ensures
        r is Some <==> offset + 4 <= bytes@.len(),
        r matches Some(n) ==> n == le32(bytes@, offset as int),
{
    if bytes.len() < 4 || offset > bytes.len() - 4 {
        return None;
    }
    Some(
        bytes[offset] as u32 + 256 * bytes[offset + 1] as u32 + 65_536 * bytes[offset + 2] as u32
            + 16_777_216 * bytes[offset + 3] as u32,
    )
}

pub fn i32_at(bytes: &[u8], offset: usize) -> (r: Option<i32>)
    ensures
        r is Some <==> offset + 4 <= bytes@.len(),
        r matches Some(n) ==> n == signed(le32(bytes@, offset as int)),
{
    match u32_at(bytes, offset) {
        Some(n) => if n < 0x8000_0000 {
            Some(n as i32)
        } else {
            Some((n as i64 - 0x1_0000_0000i64) as i32)
        },
        None => None,
    }
}

// ----------------------------------------------------------------------- layout

/// Where the pixels are and how they are packed.
#[derive(Clone, Copy, Debug, PartialEq, Eq, Structural)]
pub struct Layout {
    pub width: u32,
    pub height: u32,
    pub top_down: bool,
    /// Bytes per pixel: 3 or 4.
    pub depth: u32,
    pub red: u32,
    pub green: u32,
    pub blue: u32,
    /// Where the first stored row begins.
    pub offset: u64,
    /// Bytes per row, padded out to a 4-byte boundary.
    pub stride: u64,
}

pub open spec fn padded_row(width: int, depth: int) -> int {
    (width * depth + 3) / 4 * 4
}

/// What a header says, when it says something that can be decoded and the bytes
/// are all there.
pub open spec fn layout_of(b: Seq<u8>) -> Option<Layout> {
    let header = le32(b, 0) as int;
    let width = signed(le32(b, 4));
    let signed_height = signed(le32(b, 8));
    let height = if signed_height < 0 {
        -signed_height
    } else {
        signed_height
    };
    let bits = le16(b, 14);
    let compression = le32(b, 16);
    let masked = compression == BI_BITFIELDS;
    let depth: int = if bits == 32 {
        4
    } else {
        3
    };
    let offset = if masked && header == 40 {
        header + 12
    } else {
        header
    };
    let stride = padded_row(width, depth);
    if b.len() < 4 || header < 40 || b.len() < header {
        None
    } else if width <= 0 || width > MAX_SIDE || height == 0 || height > MAX_SIDE {
        None
    } else if (bits != 32 && bits != 24) || (compression != BI_RGB && !masked) {
        None
    } else if masked && (b.len() < 52 || le32(b, 40) == 0 || le32(b, 44) == 0 || le32(b, 48) == 0) {
        None
    } else if b.len() < offset + stride * height {
        None
    } else {
        Some(
            Layout {
                width: width as u32,
                height: height as u32,
                top_down: signed_height < 0,
                depth: depth as u32,
                red: if masked {
                    le32(b, 40)
                } else {
                    RED_MASK
                },
                green: if masked {
                    le32(b, 44)
                } else {
                    GREEN_MASK
                },
                blue: if masked {
                    le32(b, 48)
                } else {
                    BLUE_MASK
                },
                offset: offset as u64,
                stride: stride as u64,
            },
        )
    }
}

/// What the decoding rests on.
pub open spec fn fits(l: Layout, len: int) -> bool {
    &&& 0 < l.width <= MAX_SIDE
    &&& 0 < l.height <= MAX_SIDE
    &&& l.depth == 3 || l.depth == 4
    &&& l.red != 0 && l.green != 0 && l.blue != 0
    &&& l.stride == padded_row(l.width as int, l.depth as int)
    &&& l.offset + l.stride * l.height <= len
    &&& l.offset <= 0x1_0000_0100
}

fn read_layout(bytes: &[u8]) -> (r: Option<Layout>)
    ensures
        r == layout_of(bytes@),
        r matches Some(l) ==> fits(l, bytes@.len() as int),
{
    let header = match u32_at(bytes, 0) {
        Some(n) => n,
        None => return None,
    };
    if header < 40 || (bytes.len() as u64) < header as u64 {
        return None;
    }
    let raw_width = match i32_at(bytes, 4) {
        Some(n) => n,
        None => return None,
    };
    let raw_height = match i32_at(bytes, 8) {
        Some(n) => n,
        None => return None,
    };
    let bits = match u16_at(bytes, 14) {
        Some(n) => n,
        None => return None,
    };
    let compression = match u32_at(bytes, 16) {
        Some(n) => n,
        None => return None,
    };
    if raw_width <= 0 || raw_height == 0 {
        return None;
    }
    let width: u32 = raw_width as u32;
    // A negative height means the rows are stored top-down.
    let top_down = raw_height < 0;
    let height: u32 = if top_down {
        (0i64 - raw_height as i64) as u32
    } else {
        raw_height as u32
    };
    // Guard against a corrupt header asking for a gigantic allocation.
    if width > MAX_SIDE || height > MAX_SIDE {
        return None;
    }
    if (bits != 32 && bits != 24) || (compression != BI_RGB && compression != BI_BITFIELDS) {
        return None;
    }
    let depth: u32 = if bits == 32 {
        4
    } else {
        3
    };
    let masked = compression == BI_BITFIELDS;
    let mut red = RED_MASK;
    let mut green = GREEN_MASK;
    let mut blue = BLUE_MASK;
    if masked {
        // Right after a 40-byte header, or inside a longer one: the same place.
        red = match u32_at(bytes, 40) {
            Some(n) => n,
            None => return None,
        };
        green = match u32_at(bytes, 44) {
            Some(n) => n,
            None => return None,
        };
        blue = match u32_at(bytes, 48) {
            Some(n) => n,
            None => return None,
        };
        if red == 0 || green == 0 || blue == 0 {
            return None;
        }
    }
    let offset: u64 = if masked && header == 40 {
        52
    } else {
        header as u64
    };
    assert(width * depth <= 131_072) by (nonlinear_arith)
        requires
            width <= 32_768,
            depth <= 4,
    ;
    let stride: u64 = (width as u64 * depth as u64 + 3) / 4 * 4;
    assert(stride * height <= 131_076 * 32_768) by (nonlinear_arith)
        requires
            stride <= 131_076,
            height <= 32_768,
    ;
    if (bytes.len() as u64) < offset + stride * height as u64 {
        return None;
    }
    Some(Layout { width, height, top_down, depth, red, green, blue, offset, stride })
}

// ----------------------------------------------------------------------- pixels

/// Where a pixel is stored; rows run bottom-up unless the layout says otherwise.
pub open spec fn pixel_at(l: Layout, x: int, y: int) -> int {
    l.offset + (if l.top_down {
        y
    } else {
        l.height - 1 - y
    }) * l.stride + x * l.depth
}

pub open spec fn raw_pixel(b: Seq<u8>, l: Layout, x: int, y: int) -> u32 {
    let p = pixel_at(l, x, y);
    if l.depth == 4 {
        le32(b, p)
    } else {
        (b[p] + 256 * b[p + 1] + 65_536 * b[p + 2]) as u32
    }
}

/// The bits a mask selects, moved down and stretched to a byte.
pub open spec fn channel(raw: u32, mask: u32) -> u8 {
    let shift = vstd::std_specs::bits::u32_trailing_zeros(mask);
    (((raw & mask) >> shift) as int * 255 / ((mask >> shift) as int)) as u8
}

/// 32-bit bitmaps usually leave the alpha byte zero, meaning "unused" rather than
/// "transparent"; 24-bit ones have none.
pub open spec fn alpha(b: Seq<u8>, l: Layout, x: int, y: int) -> u8 {
    let p = pixel_at(l, x, y);
    if l.depth == 4 && b[p + 3] != 0 {
        b[p + 3]
    } else {
        255
    }
}

/// Red, green, blue or alpha of one pixel.
pub open spec fn sample(b: Seq<u8>, l: Layout, x: int, y: int, c: int) -> u8 {
    if c == 0 {
        channel(raw_pixel(b, l, x, y), l.red)
    } else if c == 1 {
        channel(raw_pixel(b, l, x, y), l.green)
    } else if c == 2 {
        channel(raw_pixel(b, l, x, y), l.blue)
    } else {
        alpha(b, l, x, y)
    }
}

/// Byte `k` of the decoded image.
pub open spec fn rgba_byte(b: Seq<u8>, l: Layout, k: int) -> u8 {
    sample(b, l, (k / 4) % (l.width as int), (k / 4) / (l.width as int), k % 4)
}

pub open spec fn rgba_of(b: Seq<u8>, l: Layout) -> Seq<u8> {
    Seq::new((l.width * l.height * 4) as nat, |k: int| rgba_byte(b, l, k))
}

/// The image a bitmap holds; `None` when it is not one that can be decoded.
pub open spec fn decoded(b: Seq<u8>) -> Option<ImageView> {
    match layout_of(b) {
        Some(l) => Some(ImageView { width: l.width, height: l.height, rgba: rgba_of(b, l) }),
        None => None,
    }
}

proof fn lemma_masked(raw: u32, mask: u32, shift: u32)
    requires
        mask != 0,
        shift == vstd::std_specs::bits::u32_trailing_zeros(mask),
    ensures
        shift < 32,
        mask >> shift > 0,
        (raw & mask) >> shift <= mask >> shift,
{
    vstd::std_specs::bits::axiom_u32_trailing_zeros(mask);
    assert((mask >> shift) & 1u32 == 1u32 ==> mask >> shift > 0) by (bit_vector);
    assert(shift < 32 ==> (raw & mask) >> shift <= mask >> shift) by (bit_vector);
}

fn to_channel(raw: u32, mask: u32) -> (r: u8)
    requires
        mask != 0,
    ensures
        r == channel(raw, mask),
{
    let shift: u32 = mask.trailing_zeros();
    proof {
        lemma_masked(raw, mask, shift);
    }
    let most: u64 = (mask >> shift) as u64;
    let value: u64 = ((raw & mask) >> shift) as u64;
    assert(value * 255 / (most as int) <= 255) by (nonlinear_arith)
        requires
            value <= most,
            most > 0,
    ;
    (value * 255 / most) as u8
}

/// A pixel inside the image is inside the bytes.
proof fn lemma_inside(l: Layout, len: int, x: int, y: int)
    requires
        fits(l, len),
        0 <= x < l.width,
        0 <= y < l.height,
    ensures
        0 <= pixel_at(l, x, y),
        pixel_at(l, x, y) + l.depth <= len,
        0 <= (if l.top_down {
            y
        } else {
            l.height - 1 - y
        }) * l.stride <= 131_076 * 32_768,
        0 <= x * l.depth <= 131_072,
{
    let row = if l.top_down {
        y
    } else {
        l.height - 1 - y
    };
    let w = l.width as int;
    let d = l.depth as int;
    let stride = l.stride as int;
    let h = l.height as int;
    assert(x * d + d <= w * d && 0 <= x * d && w * d <= 131_072) by (nonlinear_arith)
        requires
            0 <= x < w <= 32_768,
            0 < d <= 4,
    ;
    assert(w * d <= stride <= w * d + 3);
    assert(row * stride + stride <= h * stride && 0 <= row * stride && row * stride <= 131_076
        * 32_768) by (nonlinear_arith)
        requires
            0 <= row < h <= 32_768,
            0 <= stride <= 131_076,
    ;
    assert(h * stride == stride * h) by (nonlinear_arith);
}

fn raw_at(bytes: &[u8], l: &Layout, x: u32, y: u32) -> (r: (u32, u8))
    requires
        fits(*l, bytes@.len() as int),
        x < l.width,
        y < l.height,
    ensures
        r.0 == raw_pixel(bytes@, *l, x as int, y as int),
        r.1 == alpha(bytes@, *l, x as int, y as int),
{
    proof {
        lemma_inside(*l, bytes@.len() as int, x as int, y as int);
    }
    let row: u64 = if l.top_down {
        y as u64
    } else {
        (l.height - 1 - y) as u64
    };
    let at: u64 = l.offset + row * l.stride + x as u64 * l.depth as u64;
    assert(at == pixel_at(*l, x as int, y as int));
    assert(at < bytes.len());
    let p: usize = at as usize;
    if l.depth == 4 {
        let raw: u32 = bytes[p] as u32 + 256 * bytes[p + 1] as u32 + 65_536 * bytes[p + 2] as u32
            + 16_777_216 * bytes[p + 3] as u32;
        let a = bytes[p + 3];
        (raw, if a == 0 {
            255
        } else {
            a
        })
    } else {
        let raw: u32 = bytes[p] as u32 + 256 * bytes[p + 1] as u32 + 65_536 * bytes[p + 2] as u32;
        (raw, 255)
    }
}

/// Which pixel and which channel a byte of the image is.
proof fn lemma_byte_place(w: int, x: int, y: int, c: int)
    requires
        0 <= x < w,
        0 <= y,
        0 <= c < 4,
    ensures
        ((y * w + x) * 4 + c) / 4 == y * w + x,
        ((y * w + x) * 4 + c) % 4 == c,
        (y * w + x) / w == y,
        (y * w + x) % w == x,
{
    lemma_fundamental_div_mod_converse(y * w + x, w, y, x);
    let k = y * w + x;
    assert((k * 4 + c) / 4 == k);
}

/// Converts a `CF_DIB` / `CF_DIBV5` blob into RGBA.
pub fn decode_dib(bytes: &[u8]) -> (r: Option<DecodedImage>)
    ensures
        r is Some <==> decoded(bytes@) is Some,
        r matches Some(image) ==> decoded(bytes@) == Some(image@),
{
    let l = match read_layout(bytes) {
        Some(l) => l,
        None => return None,
    };
    let mut rgba: Vec<u8> = Vec::new();
    let mut y: u32 = 0;
    while y < l.height
        invariant
            y <= l.height,
            fits(l, bytes@.len() as int),
            rgba@.len() == y * l.width * 4,
            forall|k: int| 0 <= k < rgba@.len() ==> rgba@[k] == #[trigger] rgba_byte(bytes@, l, k),
        decreases l.height - y,
    {
        let mut x: u32 = 0;
        while x < l.width
            invariant
                x <= l.width,
                y < l.height,
                fits(l, bytes@.len() as int),
                rgba@.len() == (y * l.width + x) * 4,
                forall|k: int|
                    0 <= k < rgba@.len() ==> rgba@[k] == #[trigger] rgba_byte(bytes@, l, k),
            decreases l.width - x,
        {
            let ghost before = rgba@;
            let ghost n = rgba@.len() as int;
            let (raw, a) = raw_at(bytes, &l, x, y);
            rgba.push(to_channel(raw, l.red));
            rgba.push(to_channel(raw, l.green));
            rgba.push(to_channel(raw, l.blue));
            rgba.push(a);
            proof {
                let w = l.width as int;
                lemma_byte_place(w, x as int, y as int, 0);
                lemma_byte_place(w, x as int, y as int, 1);
                lemma_byte_place(w, x as int, y as int, 2);
                lemma_byte_place(w, x as int, y as int, 3);
                assert forall|k: int| 0 <= k < rgba@.len() implies rgba@[k]
                    == #[trigger] rgba_byte(bytes@, l, k) by {
                    if k < n {
                        assert(rgba@[k] == before[k]);
                    } else {
                        assert(k == n || k == n + 1 || k == n + 2 || k == n + 3);
                    }
                }
            }
            x += 1;
        }
        assert((y + 1) * l.width * 4 == (y * l.width + l.width) * 4) by (nonlinear_arith);
        y += 1;
    }
    assert(l.height * l.width * 4 == l.width * l.height * 4) by (nonlinear_arith);
    assert(rgba@ =~= rgba_of(bytes@, l));
    Some(DecodedImage { width: l.width, height: l.height, rgba })
}

// ---------------------------------------------------------------------- writing

/// A 32-bit number as four bytes, lowest first.
pub open spec fn bytes32(n: u32) -> Seq<u8> {
    seq![
        (n % 256) as u8,
        (n / 256 % 256) as u8,
        (n / 65_536 % 256) as u8,
        (n / 16_777_216) as u8,
    ]
}

pub fn push32(out: &mut Vec<u8>, n: u32)
    ensures
        final(out)@ == old(out)@ + bytes32(n),
{
    out.push((n % 256) as u8);
    out.push((n / 256 % 256) as u8);
    out.push((n / 65_536 % 256) as u8);
    out.push((n / 16_777_216) as u8);
    assert(out@ =~= old(out)@ + bytes32(n));
}

/// How the samples of an image file are put together.
#[derive(Clone, Copy, Debug, PartialEq, Eq, Structural)]
pub enum PngColor {
    Grayscale,
    Rgb,
    Indexed,
    GrayscaleAlpha,
    Rgba,
}

/// What came out of an image file: rows from the top, as many bytes per pixel as
/// the colour has samples.
#[derive(Debug)]
pub struct PngImage {
    pub width: u32,
    pub height: u32,
    pub color: PngColor,
    pub pixels: Vec<u8>,
}

#[verifier::ext_equal]
pub struct PngView {
    pub width: u32,
    pub height: u32,
    pub color: PngColor,
    pub pixels: Seq<u8>,
}

impl View for PngImage {
    type V = PngView;

    open spec fn view(&self) -> PngView {
        PngView {
            width: self.width,
            height: self.height,
            color: self.color,
            pixels: self.pixels@,
        }
    }
}

/// Only these two have a channel order that needs no guessing.
pub open spec fn publishable(image: PngView) -> bool {
    image.width > 0 && image.height > 0 && (image.color == PngColor::Rgba || image.color
        == PngColor::Rgb)
}

pub open spec fn samples(color: PngColor) -> int {
    if color == PngColor::Rgba {
        4
    } else {
        3
    }
}

/// Whether the pixels are all there and a bitmap can name their size.
pub open spec fn sized(image: PngView) -> bool {
    &&& image.width * image.height * 4 <= u32::MAX
    &&& image.pixels.len() >= image.width * image.height * samples(image.color)
}

/// The four bytes of a stored pixel: blue, green, red, alpha.
pub open spec fn stored_sample(image: PngView, x: int, y: int, c: int) -> u8 {
    let p = (y * image.width + x) * samples(image.color);
    if c == 0 {
        image.pixels[p + 2]
    } else if c == 1 {
        image.pixels[p + 1]
    } else if c == 2 {
        image.pixels[p]
    } else if image.color == PngColor::Rgba {
        image.pixels[p + 3]
    } else {
        255
    }
}

/// Byte `k` of the stored pixels; the rows run bottom-up.
pub open spec fn stored_byte(image: PngView, k: int) -> u8 {
    stored_sample(
        image,
        (k / 4) % (image.width as int),
        image.height - 1 - (k / 4) / (image.width as int),
        k % 4,
    )
}

/// Forty bytes: a positive height, so bottom-up; one plane; 32 bits; no masks.
pub open spec fn header_of(image: PngView) -> Seq<u8> {
    bytes32(40) + bytes32(image.width) + bytes32(image.height) + seq![1u8, 0, 32, 0] + bytes32(
        BI_RGB,
    ) + bytes32((image.width * image.height * 4) as u32) + bytes32(0) + bytes32(0) + bytes32(0)
        + bytes32(0)
}

pub open spec fn stored_pixels(image: PngView) -> Seq<u8> {
    Seq::new((image.width * image.height * 4) as nat, |k: int| stored_byte(image, k))
}

/// The bitmap an image is published as; `None` for one whose channel order would
/// have to be guessed.
pub open spec fn bitmap(image: PngView) -> Option<Seq<u8>> {
    if publishable(image) {
        Some(header_of(image) + stored_pixels(image))
    } else {
        None
    }
}

/// Re-publishes pixels as a bitmap.
pub fn bitmap_of(image: &PngImage) -> (r: Option<Vec<u8>>)
    requires
        publishable(image@) ==> sized(image@),
    ensures
        r is Some <==> bitmap(image@) is Some,
        r matches Some(bytes) ==> bitmap(image@) == Some(bytes@),
{
    if image.width == 0 || image.height == 0 {
        return None;
    }
    let step: u64 = match image.color {
        PngColor::Rgba => 4,
        PngColor::Rgb => 3,
        _ => return None,
    };
    let ghost view = image@;
    let w: u64 = image.width as u64;
    let h: u64 = image.height as u64;
    assert(w * h <= w * h * 4 && w * h * 4 <= u32::MAX);
    let mut out: Vec<u8> = Vec::new();
    push32(&mut out, 40);
    push32(&mut out, image.width);
    push32(&mut out, image.height);
    out.push(1);
    out.push(0);
    out.push(32);
    out.push(0);
    push32(&mut out, BI_RGB);
    push32(&mut out, (w * h * 4) as u32);
    push32(&mut out, 0);
    push32(&mut out, 0);
    push32(&mut out, 0);
    push32(&mut out, 0);
    let ghost head = header_of(view);
    assert(out@ =~= head);
    let mut row: u64 = 0;
    while row < h
        invariant
            row <= h,
            w == image.width,
            h == image.height,
            view == image@,
            publishable(view),
            sized(view),
            w * h * 4 <= u32::MAX,
            step == samples(view.color),
            head.len() == 40,
            out@.len() == 40 + row * w * 4,
            out@.take(40) == head,
            forall|k: int|
                0 <= k < row * w * 4 ==> out@[40 + k] == #[trigger] stored_byte(view, k),
        decreases h - row,
    {
        let y: u64 = h - 1 - row;
        let mut x: u64 = 0;
        while x < w
            invariant
                x <= w,
                row < h,
                y == h - 1 - row,
                w == image.width,
                h == image.height,
                view == image@,
                publishable(view),
                sized(view),
                w * h * 4 <= u32::MAX,
                step == samples(view.color),
                head.len() == 40,
                out@.len() == 40 + (row * w + x) * 4,
                out@.take(40) == head,
                forall|k: int|
                    0 <= k < (row * w + x) * 4 ==> out@[40 + k] == #[trigger] stored_byte(view, k),
            decreases w - x,
        {
            let ghost before = out@;
            let ghost n = (row * w + x) * 4;
            assert(y * w + x < w * h && y * w <= w * h && 0 <= y * w) by (nonlinear_arith)
                requires
                    0 <= y < h,
                    0 <= x < w,
            ;
            assert((y * w + x) * step + step <= w * h * step) by (nonlinear_arith)
                requires
                    y * w + x < w * h,
                    step > 0,
            ;
            assert(w * h * step <= w * h * 4) by (nonlinear_arith)
                requires
                    step <= 4,
                    0 <= w * h,
            ;
            let at: u64 = (y * w + x) * step;
            assert(at + step <= image.pixels.len());
            let p: usize = at as usize;
            let r = image.pixels[p];
            let g = image.pixels[p + 1];
            let b = image.pixels[p + 2];
            let a: u8 = if step == 4 {
                image.pixels[p + 3]
            } else {
                255
            };
            out.push(b);
            out.push(g);
            out.push(r);
            out.push(a);
            proof {
                lemma_byte_place(w as int, x as int, row as int, 0);
                lemma_byte_place(w as int, x as int, row as int, 1);
                lemma_byte_place(w as int, x as int, row as int, 2);
                lemma_byte_place(w as int, x as int, row as int, 3);
                assert(out@.take(40) =~= head);
                assert forall|k: int| 0 <= k < (row * w + x + 1) * 4 implies out@[40 + k]
                    == #[trigger] stored_byte(view, k) by {
                    if k < n {
                        assert(out@[40 + k] == before[40 + k]);
                    } else {
                        assert(k == n || k == n + 1 || k == n + 2 || k == n + 3);
                    }
                }
            }
            x += 1;
        }
        assert((row + 1) * w * 4 == (row * w + w) * 4) by (nonlinear_arith);
        row += 1;
    }
    proof {
        assert(h * w * 4 == w * h * 4) by (nonlinear_arith);
        assert(out@ =~= head + stored_pixels(view)) by {
            assert forall|j: int| 0 <= j < out@.len() implies out@[j] == (head + stored_pixels(
                view,
            ))[j] by {
                if j < 40 {
                    assert(out@.take(40)[j] == out@[j]);
                } else {
                    assert(out@[40 + (j - 40)] == stored_byte(view, j - 40));
                }
            }
        }
    }
    Some(out)
}

// --------------------------------------------------------------------- the laws

proof fn lemma_bytes32(n: u32)
    ensures
        le32(bytes32(n), 0) == n,
        bytes32(n).len() == 4,
{
    assert(n == n % 256 + 256 * (n / 256 % 256) + 65_536 * (n / 65_536 % 256) + 16_777_216 * (n
        / 16_777_216));
}

/// A number that stands inside other bytes.
proof fn lemma_le32_at(b: Seq<u8>, i: int, n: u32)
    requires
        0 <= i,
        i + 4 <= b.len(),
        b.subrange(i, i + 4) == bytes32(n),
    ensures
        le32(b, i) == n,
{
    lemma_bytes32(n);
    let part = b.subrange(i, i + 4);
    assert(part[0] == b[i] && part[1] == b[i + 1] && part[2] == b[i + 2] && part[3] == b[i + 3]);
}

proof fn lemma_mask_shift(mask: u32, shift: u32)
    requires
        mask == RED_MASK && shift == 16 || mask == GREEN_MASK && shift == 8 || mask == BLUE_MASK
            && shift == 0,
    ensures
        vstd::std_specs::bits::u32_trailing_zeros(mask) == shift,
{
    vstd::std_specs::bits::axiom_u32_trailing_zeros(mask);
    let t = vstd::std_specs::bits::u32_trailing_zeros(mask);
    assert((mask >> shift) & 1u32 == 1u32) by (bit_vector)
        requires
            mask == 0x00FF_0000u32 && shift == 16 || mask == 0x0000_FF00u32 && shift == 8 || mask
                == 0xFFu32 && shift == 0,
    ;
    assert(t < shift ==> (mask >> t) & 1u32 == 0u32) by (bit_vector)
        requires
            mask == 0x00FF_0000u32 && shift == 16 || mask == 0x0000_FF00u32 && shift == 8 || mask
                == 0xFFu32 && shift == 0,
    ;
}

proof fn lemma_digits(n: int, b0: int, b1: int, b2: int, b3: int)
    requires
        0 <= b0 < 256,
        0 <= b1 < 256,
        0 <= b2 < 256,
        0 <= b3 < 256,
        n == b0 + 256 * b1 + 65_536 * b2 + 16_777_216 * b3,
    ensures
        n % 256 == b0,
        n / 256 % 256 == b1,
        n / 65_536 % 256 == b2,
{
    let q1 = b1 + 256 * b2 + 65_536 * b3;
    let q2 = b2 + 256 * b3;
    lemma_fundamental_div_mod_converse(n, 256, q1, b0);
    lemma_fundamental_div_mod_converse(q1, 256, q2, b1);
    lemma_fundamental_div_mod_converse(n, 65_536, q2, b0 + 256 * b1);
    lemma_fundamental_div_mod_converse(q2, 256, b3, b2);
}

proof fn lemma_channel_bits(raw: u32)
    ensures
        channel(raw, RED_MASK) == raw as int / 65_536 % 256,
        channel(raw, GREEN_MASK) == raw as int / 256 % 256,
        channel(raw, BLUE_MASK) == raw as int % 256,
{
    lemma_mask_shift(RED_MASK, 16);
    lemma_mask_shift(GREEN_MASK, 8);
    lemma_mask_shift(BLUE_MASK, 0);
    assert((raw & 0x00FF_0000u32) >> 16 == (raw / 65_536) % 256) by (bit_vector);
    assert((raw & 0x0000_FF00u32) >> 8 == (raw / 256) % 256) by (bit_vector);
    assert((raw & 0xFFu32) >> 0 == raw % 256) by (bit_vector);
    assert(0x00FF_0000u32 >> 16 == 255 && 0x0000_FF00u32 >> 8 == 255 && 0xFFu32 >> 0 == 255)
        by (bit_vector);
}

/// With the default masks a channel is a byte of the pixel.
proof fn lemma_default_channels(b: Seq<u8>, p: int)
    requires
        0 <= p,
        p + 4 <= b.len(),
    ensures
        channel(le32(b, p), RED_MASK) == b[p + 2],
        channel(le32(b, p), GREEN_MASK) == b[p + 1],
        channel(le32(b, p), BLUE_MASK) == b[p],
{
    let raw = le32(b, p);
    lemma_channel_bits(raw);
    lemma_digits(raw as int, b[p] as int, b[p + 1] as int, b[p + 2] as int, b[p + 3] as int);
}

/// An image that says transparent nowhere: alpha zero reads as "unused".
pub open spec fn opaque_alpha(rgba: Seq<u8>) -> Seq<u8> {
    Seq::new(
        rgba.len(),
        |k: int|
            if k % 4 == 3 && rgba[k] == 0 {
                255u8
            } else {
                rgba[k]
            },
    )
}

/// An image of a size that a bitmap can have, with all its pixels.
pub open spec fn whole(image: ImageView) -> bool {
    &&& 0 < image.width <= MAX_SIDE
    &&& 0 < image.height <= MAX_SIDE
    &&& image.width * image.height * 4 <= u32::MAX
    &&& image.rgba.len() == image.width * image.height * 4
}

pub open spec fn rgba_png(width: u32, height: u32, rgba: Seq<u8>) -> PngView {
    PngView { width, height, color: PngColor::Rgba, pixels: rgba }
}

pub open spec fn as_png(image: ImageView) -> PngView {
    rgba_png(image.width, image.height, image.rgba)
}

proof fn lemma_written_layout(image: ImageView)
    requires
        whole(image),
    ensures
        layout_of(header_of(as_png(image)) + stored_pixels(as_png(image))) == Some(
            Layout {
                width: image.width,
                height: image.height,
                top_down: false,
                depth: 4,
                red: RED_MASK,
                green: GREEN_MASK,
                blue: BLUE_MASK,
                offset: 40,
                stride: (image.width * 4) as u64,
            },
        ),
{
    let png = as_png(image);
    let b = header_of(png) + stored_pixels(png);
    lemma_bytes32(40);
    lemma_bytes32(image.width);
    lemma_bytes32(image.height);
    lemma_bytes32(BI_RGB);
    assert(b.subrange(0, 4) =~= bytes32(40));
    assert(b.subrange(4, 8) =~= bytes32(image.width));
    assert(b.subrange(8, 12) =~= bytes32(image.height));
    assert(b.subrange(16, 20) =~= bytes32(BI_RGB));
    lemma_le32_at(b, 0, 40);
    lemma_le32_at(b, 4, image.width);
    lemma_le32_at(b, 8, image.height);
    lemma_le32_at(b, 16, BI_RGB);
    assert(b[14] == 32 && b[15] == 0);
    assert(le16(b, 14) == 32);
    let w = image.width as int;
    let h = image.height as int;
    assert(padded_row(w, 4) == w * 4);
    assert((w * 4) * h == w * h * 4) by (nonlinear_arith);
    assert(b.len() == 40 + w * h * 4);
}

/// A published bitmap decodes to the image it was made from; only a pixel that
/// said fully transparent comes back opaque.
pub proof fn law_bitmap_round_trip(image: ImageView)
    requires
        whole(image),
    ensures
        bitmap(as_png(image)) is Some,
        decoded(bitmap(as_png(image))->0) == Some(
            ImageView { rgba: opaque_alpha(image.rgba), ..image },
        ),
{
    let png = as_png(image);
    let head = header_of(png);
    let body = stored_pixels(png);
    let b = head + body;
    lemma_written_layout(image);
    let l = layout_of(b)->0;
    let w = image.width as int;
    let h = image.height as int;
    assert(head.len() == 40);
    let out = rgba_of(b, l);
    assert forall|k: int| 0 <= k < out.len() implies out[k] == #[trigger] opaque_alpha(
        image.rgba,
    )[k] by {
        let c = k % 4;
        let q = k / 4;
        let x = q % w;
        let y = q / w;
        let r = h - 1 - y;
        assert(q == y * w + x && 0 <= x < w && 0 <= y < h) by (nonlinear_arith)
            requires
                q == k / 4,
                0 <= k < w * h * 4,
                x == q % w,
                y == q / w,
                w > 0,
                h > 0,
        ;
        let p = pixel_at(l, x, y);
        let j = (r * w + x) * 4;
        assert(r * (w * 4) + x * 4 == j) by (nonlinear_arith)
            requires
                j == (r * w + x) * 4,
        ;
        assert(p == 40 + j);
        assert(0 <= r * w && r * w + x < w * h) by (nonlinear_arith)
            requires
                0 <= r < h,
                0 <= x < w,
        ;
        lemma_byte_place(w, x, r, 0);
        lemma_byte_place(w, x, r, 1);
        lemma_byte_place(w, x, r, 2);
        lemma_byte_place(w, x, r, 3);
        assert(b[p] == stored_byte(png, j));
        assert(b[p + 1] == stored_byte(png, j + 1));
        assert(b[p + 2] == stored_byte(png, j + 2));
        assert(b[p + 3] == stored_byte(png, j + 3));
        lemma_default_channels(b, p);
        assert(k == (y * w + x) * 4 + c);
    }
    assert(out =~= opaque_alpha(image.rgba));
}

/// An image that was read from a bitmap and is published again reads the same:
/// copying a picture out of the history gives back the picture.
pub proof fn law_picture_survives(b: Seq<u8>)
    requires
        decoded(b) is Some,
        whole(decoded(b)->0),
    ensures
        decoded(bitmap(as_png(decoded(b)->0))->0) == decoded(b),
{
    let image = decoded(b)->0;
    let l = layout_of(b)->0;
    law_bitmap_round_trip(image);
    assert(opaque_alpha(image.rgba) =~= image.rgba);
}

/// Four bytes as a number, the lowest first.
pub open spec fn number_at(b: Seq<u8>, i: int) -> int {
    b[i] + 256 * b[i + 1] + 65_536 * b[i + 2] + 16_777_216 * b[i + 3]
}

proof fn lemma_number_at(b: Seq<u8>, i: int)
    ensures
        le32(b, i) == number_at(b, i),
        le16(b, i) == b[i] + 256 * b[i + 1],
{
}

/// A number is written lowest byte first.
pub proof fn law_number_is_written_low_byte_first(n: u32)
    ensures
        bytes32(n).len() == 4,
        number_at(bytes32(n), 0) == n,
{
    lemma_bytes32(n);
    lemma_number_at(bytes32(n), 0);
}

proof fn lemma_layout_fits(b: Seq<u8>)
    requires
        layout_of(b) is Some,
    ensures
        fits(layout_of(b)->0, b.len() as int),
{
    let l = layout_of(b)->0;
    let w = l.width as int;
    let d = l.depth as int;
    let h = l.height as int;
    assert(0 <= w * d <= 32_768 * 4) by (nonlinear_arith)
        requires
            0 < w <= 32_768,
            3 <= d <= 4,
    ;
    let stride = padded_row(w, d);
    assert(0 <= stride <= 131_076);
    assert(l.stride == stride);
    assert(l.stride * l.height == stride * h);
}

/// A picture is as wide and as high as the second and third number of the header
/// say, and of a bitmap without masks every pixel is the three or four bytes that
/// stand for it: blue, green, red and, unless it is zero, alpha. Rows end on a
/// multiple of four bytes and run upwards, unless the height is negative.
pub proof fn law_pixels_are_read_where_they_stand(b: Seq<u8>, x: int, y: int)
    requires
        decoded(b) is Some,
        number_at(b, 16) == 0,
        0 <= x < decoded(b)->0.width,
        0 <= y < decoded(b)->0.height,
    ensures
        ({
            let image = decoded(b)->0;
            let w = image.width as int;
            let h = image.height as int;
            let depth = (b[14] + 256 * b[15]) / 8;
            let stride = (w * depth + 3) / 4 * 4;
            let down = number_at(b, 8) >= 0x8000_0000;
            let row = if down {
                y
            } else {
                h - 1 - y
            };
            let p = number_at(b, 0) + row * stride + x * depth;
            let k = (y * w + x) * 4;
            &&& w == number_at(b, 4)
            &&& h == (if down {
                0x1_0000_0000 - number_at(b, 8)
            } else {
                number_at(b, 8)
            })
            &&& image.rgba.len() == w * h * 4
            &&& image.rgba[k] == b[p + 2]
            &&& image.rgba[k + 1] == b[p + 1]
            &&& image.rgba[k + 2] == b[p]
            &&& image.rgba[k + 3] == (if depth == 4 && b[p + 3] != 0 {
                b[p + 3]
            } else {
                255
            })
        }),
{
    let l = layout_of(b)->0;
    let image = decoded(b)->0;
    let w = image.width as int;
    let h = image.height as int;
    lemma_number_at(b, 0);
    lemma_number_at(b, 4);
    lemma_number_at(b, 8);
    lemma_number_at(b, 14);
    lemma_number_at(b, 16);
    lemma_layout_fits(b);
    lemma_inside(l, b.len() as int, x, y);
    let p = pixel_at(l, x, y);
    let k = (y * w + x) * 4;
    lemma_byte_place(w, x, y, 0);
    lemma_byte_place(w, x, y, 1);
    lemma_byte_place(w, x, y, 2);
    lemma_byte_place(w, x, y, 3);
    assert(0 <= k && k + 3 < w * h * 4) by (nonlinear_arith)
        requires
            k == (y * w + x) * 4,
            0 <= x < w,
            0 <= y < h,
    ;
    if l.depth == 4 {
        lemma_default_channels(b, p);
    } else {
        let raw = raw_pixel(b, l, x, y);
        lemma_channel_bits(raw);
        lemma_digits(raw as int, b[p] as int, b[p + 1] as int, b[p + 2] as int, 0);
    }
    assert(image.rgba[k] == rgba_byte(b, l, k));
    assert(image.rgba[k + 1] == rgba_byte(b, l, k + 1));
    assert(image.rgba[k + 2] == rgba_byte(b, l, k + 2));
    assert(image.rgba[k + 3] == rgba_byte(b, l, k + 3));
}

/// With masks, red, green and blue are the bits the three masks after the header
/// name, in this order; all of a mask's bits are full strength and none of them is
/// nothing.
pub proof fn law_masks_name_the_channels(b: Seq<u8>, raw: u32, mask: u32)
    requires
        layout_of(b) is Some,
        number_at(b, 16) == 3,
        mask != 0,
    ensures
        layout_of(b)->0.red == number_at(b, 40),
        layout_of(b)->0.green == number_at(b, 44),
        layout_of(b)->0.blue == number_at(b, 48),
        layout_of(b)->0.offset == (if number_at(b, 0) == 40 {
            52
        } else {
            number_at(b, 0)
        }),
        raw & mask == mask ==> channel(raw, mask) == 255,
        raw & mask == 0 ==> channel(raw, mask) == 0,
{
    lemma_number_at(b, 0);
    lemma_number_at(b, 16);
    lemma_number_at(b, 40);
    lemma_number_at(b, 44);
    lemma_number_at(b, 48);
    let shift = vstd::std_specs::bits::u32_trailing_zeros(mask) as u32;
    lemma_masked(raw, mask, shift);
    let most = (mask >> shift) as int;
    assert(most * 255 / most == 255) by (nonlinear_arith)
        requires
            most > 0,
    ;
    assert(0u32 >> shift == 0) by (bit_vector)
        requires
            shift < 32,
    ;
    assert(0int * 255 / most == 0) by (nonlinear_arith)
        requires
            most > 0,
    ;
}

/// A published bitmap has a header of forty bytes that says its size, one plane, 32
/// bits a pixel and no masks; then every pixel as blue, green, red and alpha, row by
/// row from the bottom.
pub proof fn law_pixels_are_published_where_they_belong(image: PngView, x: int, y: int)
    requires
        publishable(image),
        sized(image),
        0 <= x < image.width,
        0 <= y < image.height,
    ensures
        bitmap(image) is Some,
        ({
            let b = bitmap(image)->0;
            let w = image.width as int;
            let h = image.height as int;
            let step = if image.color == PngColor::Rgba {
                4int
            } else {
                3
            };
            let p = 40 + ((h - 1 - y) * w + x) * 4;
            let q = (y * w + x) * step;
            &&& b.len() == 40 + w * h * 4
            &&& number_at(b, 0) == 40
            &&& number_at(b, 4) == w
            &&& number_at(b, 8) == h
            &&& b[12] == 1 && b[13] == 0 && b[14] == 32 && b[15] == 0
            &&& number_at(b, 16) == 0
            &&& number_at(b, 20) == w * h * 4
            &&& b[p] == image.pixels[q + 2]
            &&& b[p + 1] == image.pixels[q + 1]
            &&& b[p + 2] == image.pixels[q]
            &&& b[p + 3] == (if image.color == PngColor::Rgba {
                image.pixels[q + 3]
            } else {
                255
            })
        }),
{
    let b = bitmap(image)->0;
    let w = image.width as int;
    let h = image.height as int;
    let r = h - 1 - y;
    let j = (r * w + x) * 4;
    lemma_bytes32(40);
    lemma_bytes32(image.width);
    lemma_bytes32(image.height);
    lemma_bytes32(BI_RGB);
    lemma_bytes32((w * h * 4) as u32);
    assert(b.subrange(0, 4) =~= bytes32(40));
    assert(b.subrange(4, 8) =~= bytes32(image.width));
    assert(b.subrange(8, 12) =~= bytes32(image.height));
    assert(b.subrange(16, 20) =~= bytes32(BI_RGB));
    assert(b.subrange(20, 24) =~= bytes32((w * h * 4) as u32));
    lemma_le32_at(b, 0, 40);
    lemma_le32_at(b, 4, image.width);
    lemma_le32_at(b, 8, image.height);
    lemma_le32_at(b, 16, BI_RGB);
    lemma_le32_at(b, 20, (w * h * 4) as u32);
    lemma_number_at(b, 0);
    lemma_number_at(b, 4);
    lemma_number_at(b, 8);
    lemma_number_at(b, 16);
    lemma_number_at(b, 20);
    assert(0 <= j && j + 3 < w * h * 4) by (nonlinear_arith)
        requires
            j == (r * w + x) * 4,
            0 <= r < h,
            0 <= x < w,
    ;
    lemma_byte_place(w, x, r, 0);
    lemma_byte_place(w, x, r, 1);
    lemma_byte_place(w, x, r, 2);
    lemma_byte_place(w, x, r, 3);
    assert(header_of(image).len() == 40);
    assert(b[40 + j] == stored_byte(image, j));
    assert(b[40 + j + 1] == stored_byte(image, j + 1));
    assert(b[40 + j + 2] == stored_byte(image, j + 2));
    assert(b[40 + j + 3] == stored_byte(image, j + 3));
}

/// A bitmap is taken exactly when its header is a whole one, its sides are 1 to 32768,
/// its pixels have 24 or 32 bits, it has no masks or three that name something, and
/// all its rows are there.
pub proof fn law_which_bitmaps_are_taken(b: Seq<u8>)
    requires
        b.len() >= 52,
    ensures
        decoded(b) is Some <==> ({
            let header = number_at(b, 0);
            let w = number_at(b, 4);
            let height = number_at(b, 8);
            let h = if height >= 0x8000_0000 {
                0x1_0000_0000 - height
            } else {
                height
            };
            let bits = b[14] + 256 * b[15];
            let masked = number_at(b, 16) == 3;
            let start = if masked && header == 40 {
                52
            } else {
                header
            };
            &&& 40 <= header <= b.len()
            &&& 1 <= w <= 32_768
            &&& 1 <= h <= 32_768
            &&& bits == 24 || bits == 32
            &&& number_at(b, 16) == 0 || masked
            &&& masked ==> number_at(b, 40) > 0 && number_at(b, 44) > 0 && number_at(b, 48) > 0
            &&& start + (w * (bits / 8) + 3) / 4 * 4 * h <= b.len()
        }),
{
    lemma_number_at(b, 0);
    lemma_number_at(b, 4);
    lemma_number_at(b, 8);
    lemma_number_at(b, 14);
    lemma_number_at(b, 16);
    lemma_number_at(b, 40);
    lemma_number_at(b, 44);
    lemma_number_at(b, 48);
}

proof fn lemma_shifted(n: u32, shift: u32)
    requires
        shift < 32,
        (n >> shift) << shift == n,
    ensures
        n == (n >> shift) as int * vstd::arithmetic::power2::pow2(shift as nat),
{
    let p = vstd::arithmetic::power2::pow2(shift as nat) as int;
    vstd::arithmetic::power2::lemma_pow2_pos(shift as nat);
    vstd::bits::lemma_u32_shr_is_div(n, shift);
    let q = (n >> shift) as int;
    assert(q == n as int / p);
    assert(q * p <= n) by (nonlinear_arith)
        requires
            q == n as int / p,
            p > 0,
    ;
    vstd::bits::lemma_u32_shl_is_mul(n >> shift, shift);
}

/// A channel is the share of its mask that the pixel's bits are, of 255, whichever bits
/// of the pixel the mask takes.
pub proof fn law_channel_is_its_share_of_the_mask(raw: u32, mask: u32)
    requires
        mask != 0,
    ensures
        channel(raw, mask) == (raw & mask) as int * 255 / (mask as int),
{
    let shift = vstd::std_specs::bits::u32_trailing_zeros(mask) as u32;
    lemma_masked(raw, mask, shift);
    vstd::std_specs::bits::axiom_u32_trailing_zeros(mask);
    let left: u32 = (32 - shift) as u32;
    assert((mask >> shift) << shift == mask && ((raw & mask) >> shift) << shift == raw & mask)
        by (bit_vector)
        requires
            shift < 32,
            left == 32 - shift,
            mask << left == 0,
    ;
    lemma_shifted(mask, shift);
    lemma_shifted(raw & mask, shift);
    let p = vstd::arithmetic::power2::pow2(shift as nat) as int;
    vstd::arithmetic::power2::lemma_pow2_pos(shift as nat);
    let value = ((raw & mask) >> shift) as int;
    let most = (mask >> shift) as int;
    vstd::arithmetic::div_mod::lemma_div_multiples_vanish_quotient(p, value * 255, most);
    assert(p * (value * 255) == (value * p) * 255) by (nonlinear_arith);
    assert(p * most == most * p) by (nonlinear_arith);
    assert(value * 255 / most <= 255) by (nonlinear_arith)
        requires
            0 <= value <= most,
            most > 0,
    ;
    assert(0 <= value * 255 / most) by (nonlinear_arith)
        requires
            0 <= value,
            most > 0,
    ;
}

} // verus!
