//! What goes onto the clipboard and what is made of what comes off it.
//!
//! Getting at the clipboard itself is left to the caller, who has to be on the
//! thread that owns the window.

use vstd::prelude::*;

use crate::clip::{ClipPayload, PayloadView};
use crate::dib;
use crate::dib::{DecodedImage, PngColor, PngImage, PngView};
use crate::text;
use crate::utf16;

verus! {

pub use crate::dib::decode_dib;

pub const CF_DIB: u32 = 8;

pub const CF_UNICODETEXT: u32 = 13;

pub const CF_HDROP: u32 = 15;

pub const CF_DIBV5: u32 = 17;

// ------------------------------------------------------------------- image files

/// What `png::Decoder` makes of a file: the first frame of the image, or `None`
/// when the file cannot be decoded. It depends on the bytes alone.
pub uninterp spec fn png_pixels(file: Seq<u8>) -> Option<PngView>;

/// The file `png::Encoder` writes for 8-bit RGBA pixels, or `None` when it
/// refuses them. It depends on the size and the pixels alone.
pub uninterp spec fn png_file(width: u32, height: u32, rgba: Seq<u8>) -> Option<Seq<u8>>;

/// Calls `png::Decoder::read_info` and `png::Reader::next_frame` with the
/// decoder's default settings. The contract only gives the result a name. That
/// there is memory for the pixels is taken for granted.
#[verifier::external_body]
fn png_decode(file: &[u8]) -> (r: Option<PngImage>)
    ensures
        r is Some <==> png_pixels(file@) is Some,
        r matches Some(image) ==> png_pixels(file@) == Some(image@),
{
    let mut reader = png::Decoder::new(file).read_info().ok()?;
    let mut buffer = vec![0u8; reader.output_buffer_size()];
    let info = reader.next_frame(&mut buffer).ok()?;
    buffer.truncate(info.buffer_size());
    let color = match info.color_type {
        png::ColorType::Grayscale => PngColor::Grayscale,
        png::ColorType::Rgb => PngColor::Rgb,
        png::ColorType::Indexed => PngColor::Indexed,
        png::ColorType::GrayscaleAlpha => PngColor::GrayscaleAlpha,
        png::ColorType::Rgba => PngColor::Rgba,
    };
    Some(PngImage { width: info.width, height: info.height, color, pixels: buffer })
}

/// Calls `png::Encoder` with 8-bit RGBA. The contract names the file; says that
/// the encoder writes one exactly when there is an image to write and as many
/// pixels as its size asks for, since writing to memory cannot fail; and says
/// that the file decodes to what was encoded, the format being lossless. The
/// sides are bounded because the decoder sets a limit to the length of a row.
#[verifier::external_body]
fn png_encode(width: u32, height: u32, rgba: &Vec<u8>) -> (r: Option<Vec<u8>>)
    requires
        width <= dib::MAX_SIDE,
        height <= dib::MAX_SIDE,
    ensures
        r is Some <==> png_file(width, height, rgba@) is Some,
        r matches Some(file) ==> png_file(width, height, rgba@) == Some(file@),
        r is Some <==> (width > 0 && height > 0 && rgba@.len() == width * height * 4),
        r matches Some(file) ==> png_pixels(file@) == Some(dib::rgba_png(width, height, rgba@)),
{
    let mut out = Vec::new();
    let mut encoder = png::Encoder::new(&mut out, width, height);
    encoder.set_color(png::ColorType::Rgba);
    encoder.set_depth(png::BitDepth::Eight);
    let mut writer = encoder.write_header().ok()?;
    writer.write_image_data(rgba).ok()?;
    drop(writer);
    Some(out)
}

/// The image file a clipboard bitmap is kept as.
pub open spec fn kept_image(bitmap: Seq<u8>) -> Option<Seq<u8>> {
    match dib::decoded(bitmap) {
        Some(image) => png_file(image.width, image.height, image.rgba),
        None => None,
    }
}

/// Turns a clipboard bitmap into the image file that is kept. Nothing comes of a
/// bitmap that cannot be decoded.
pub fn read_image(bitmap: &[u8]) -> (r: Option<Vec<u8>>)
    ensures
        r is Some <==> dib::decoded(bitmap@) is Some,
        r is Some <==> kept_image(bitmap@) is Some,
        r matches Some(file) ==> kept_image(bitmap@) == Some(file@),
        r matches Some(file) ==> png_pixels(file@) == Some(dib::as_png(dib::decoded(bitmap@)->0)),
{
    match decode_dib(bitmap) {
        Some(image) => encode_png(&image),
        None => None,
    }
}

/// Encodes a decoded bitmap.
pub fn encode_png(image: &DecodedImage) -> (r: Option<Vec<u8>>)
    requires
        image.width <= dib::MAX_SIDE,
        image.height <= dib::MAX_SIDE,
    ensures
        r is Some <==> image.width > 0 && image.height > 0 && image.rgba@.len() == image.width
            * image.height * 4,
        r is Some <==> png_file(image.width, image.height, image.rgba@) is Some,
        r matches Some(file) ==> png_file(image.width, image.height, image.rgba@) == Some(file@),
        r matches Some(file) ==> png_pixels(file@) == Some(dib::as_png(image@)),
{
    png_encode(image.width, image.height, &image.rgba)
}

/// The bitmap an image file is published as: `None` when the file cannot be
/// decoded, when its channel order would have to be guessed, or when its pixels
/// are more than a bitmap can name.
pub open spec fn published(file: Seq<u8>) -> Option<Seq<u8>> {
    match png_pixels(file) {
        Some(image) => if dib::publishable(image) && dib::sized(image) {
            dib::bitmap(image)
        } else {
            None
        },
        None => None,
    }
}

/// Decodes a stored image file back to pixels and makes the bitmap it is
/// published as.
///
/// Only RGBA and RGB inputs are accepted. Our own files are always RGBA, so
/// anything else means a foreign file, and refusing is better than writing a
/// bitmap whose channel order was guessed wrong.
pub fn write_dib(file: &[u8]) -> (r: Option<Vec<u8>>)
    ensures
        r is Some <==> published(file@) is Some,
        r matches Some(bytes) ==> published(file@) == Some(bytes@),
{
    let image = match png_decode(file) {
        Some(image) => image,
        None => return None,
    };
    let step: u64 = match image.color {
        PngColor::Rgba => 4,
        PngColor::Rgb => 3,
        _ => return None,
    };
    let w: u64 = image.width as u64;
    let h: u64 = image.height as u64;
    assert(0 <= w * h <= 0xFFFF_FFFF * 0xFFFF_FFFF) by (nonlinear_arith)
        requires
            0 <= w <= 0xFFFF_FFFF,
            0 <= h <= 0xFFFF_FFFF,
    ;
    let area: u64 = w * h;
    if area > 0x3FFF_FFFF {
        return None;
    }
    assert(area * step == w * h * dib::samples(image.color));
    if (image.pixels.len() as u64) < area * step {
        return None;
    }
    dib::bitmap_of(&image)
}

/// A picture copied to the clipboard, kept, and copied back out is the same
/// picture. Only one of the full size in both directions is left out: its
/// bitmap could not name its own length.
pub proof fn law_picture_comes_back(bitmap: Seq<u8>, file: Seq<u8>)
    requires
        dib::decoded(bitmap) is Some,
        dib::whole(dib::decoded(bitmap)->0),
        png_pixels(file) == Some(dib::as_png(dib::decoded(bitmap)->0)),
    ensures
        published(file) is Some,
        dib::decoded(published(file)->0) == dib::decoded(bitmap),
{
    dib::law_picture_survives(bitmap);
}

// -------------------------------------------------------------------------- text

/// Units as bytes, the low one first.
pub open spec fn unit_bytes(units: Seq<u16>) -> Seq<u8> {
    Seq::new(
        units.len() * 2,
        |i: int|
            if i % 2 == 0 {
                (units[i / 2] % 256) as u8
            } else {
                (units[i / 2] / 256) as u8
            },
    )
}

/// Bytes as units; a last odd byte is none.
pub open spec fn units_in(bytes: Seq<u8>) -> Seq<u16> {
    Seq::new(bytes.len() / 2, |i: int| (bytes[2 * i] + 256 * bytes[2 * i + 1]) as u16)
}

/// What stands before the first NUL.
pub open spec fn before_nul(units: Seq<u16>) -> Seq<u16>
    decreases units.len(),
{
    if units.len() == 0 || units[0] == 0 {
        Seq::empty()
    } else {
        seq![units[0]] + before_nul(units.drop_first())
    }
}

/// The text in a clipboard block, which is usually larger than the string.
pub open spec fn block_text(bytes: Seq<u8>) -> Option<Seq<char>> {
    let units = before_nul(units_in(bytes));
    if units.len() == 0 {
        None
    } else {
        Some(utf16::decoded(units))
    }
}

pub fn read_text(bytes: &[u8]) -> (r: Option<String>)
    ensures
        text::opt_view(r) == block_text(bytes@),
{
    let mut units: Vec<u16> = Vec::new();
    let ghost all = units_in(bytes@);
    let n = bytes.len() / 2;
    let mut i: usize = 0;
    let mut ended = false;
    assert(all.skip(0) =~= all);
    while i < n && !ended
        invariant
            i <= n,
            n == bytes@.len() / 2,
            2 * n <= bytes.len(),
            all == units_in(bytes@),
            !ended ==> units@ + before_nul(all.skip(i as int)) =~= before_nul(all),
            ended ==> units@ == before_nul(all),
        decreases n - i, if ended {
            0int
        } else {
            1int
        },
    {
        let ghost rest = all.skip(i as int);
        let u: u16 = bytes[2 * i] as u16 + 256 * bytes[2 * i + 1] as u16;
        assert(rest[0] == u);
        assert(rest.drop_first() =~= all.skip(i as int + 1));
        if u == 0 {
            ended = true;
            assert(units@ =~= before_nul(all));
        } else {
            units.push(u);
            i += 1;
        }
    }
    assert(units@ =~= before_nul(all));
    if units.len() == 0 {
        return None;
    }
    Some(utf16::decode(&units))
}

fn push_units(out: &mut Vec<u8>, units: &Vec<u16>)
    ensures
        final(out)@ == old(out)@ + unit_bytes(units@),
{
    let mut i: usize = 0;
    assert(out@ =~= old(out)@ + unit_bytes(units@.take(0)));
    while i < units.len()
        invariant
            i <= units@.len(),
            out@ =~= old(out)@ + unit_bytes(units@.take(i as int)),
        decreases units@.len() - i,
    {
        out.push((units[i] % 256) as u8);
        out.push((units[i] / 256) as u8);
        i += 1;
        assert(out@ =~= old(out)@ + unit_bytes(units@.take(i as int)));
    }
    assert(units@.take(i as int) =~= units@);
}

/// The block a text is published as; there is none for an empty text.
pub open spec fn text_block(s: Seq<char>) -> Option<Seq<u8>> {
    if s.len() == 0 {
        None
    } else {
        Some(unit_bytes(utf16::encoded(s).push(0)))
    }
}

pub fn write_unicode_text(s: &str) -> (r: Option<Vec<u8>>)
    ensures
        r is Some <==> text_block(s@) is Some,
        r matches Some(bytes) ==> text_block(s@) == Some(bytes@),
{
    if s.is_empty() {
        return None;
    }
    let units = utf16::wide(s);
    let mut out: Vec<u8> = Vec::new();
    push_units(&mut out, &units);
    assert(out@ =~= unit_bytes(units@));
    Some(out)
}

proof fn lemma_before_nul(units: Seq<u16>)
    requires
        forall|i: int| 0 <= i < units.len() ==> units[i] != 0,
    ensures
        before_nul(units.push(0)) == units,
    decreases units.len(),
{
    let all = units.push(0);
    if units.len() == 0 {
        assert(before_nul(all) =~= units);
    } else {
        assert(all.drop_first() =~= units.drop_first().push(0));
        lemma_before_nul(units.drop_first());
        assert(before_nul(all) =~= units);
    }
}

/// A text without NUL that is published is read back as it was.
pub proof fn law_text_round_trip(s: Seq<char>)
    requires
        s.len() > 0,
        !s.contains('\0'),
    ensures
        text_block(s) is Some,
        block_text(text_block(s)->0) == Some(s),
{
    let units = utf16::encoded(s);
    let all = units.push(0);
    let bytes = unit_bytes(all);
    utf16::lemma_no_nul(s);
    utf16::law_utf16_round_trip(s);
    lemma_before_nul(units);
    assert(units_in(bytes) =~= all) by {
        assert forall|i: int| 0 <= i < all.len() implies units_in(bytes)[i] == all[i] by {
            let u = all[i];
            assert((2 * i) / 2 == i && (2 * i) % 2 == 0);
            assert((2 * i + 1) / 2 == i && (2 * i + 1) % 2 == 1);
            assert(bytes[2 * i] == u % 256);
            assert(bytes[2 * i + 1] == u / 256);
        }
    }
}

// ------------------------------------------------------------------------- files

/// The paths of a file drop, each ended by a NUL.
pub open spec fn drop_units(paths: Seq<Seq<char>>) -> Seq<u16>
    decreases paths.len(),
{
    if paths.len() == 0 {
        Seq::empty()
    } else {
        drop_units(paths.drop_last()) + utf16::encoded(paths.last()).push(0)
    }
}

/// A DROPFILES header: the list begins after these 20 bytes, and is wide.
pub open spec fn drop_header() -> Seq<u8> {
    dib::bytes32(20) + dib::bytes32(0) + dib::bytes32(0) + dib::bytes32(0) + dib::bytes32(1)
}

/// The block a list of paths is published as: the header and a doubly terminated
/// list. There is none for an empty list.
pub open spec fn drop_block(paths: Seq<Seq<char>>) -> Option<Seq<u8>> {
    if paths.len() == 0 {
        None
    } else {
        Some(drop_header() + unit_bytes(drop_units(paths).push(0)))
    }
}

pub fn write_file_drop(paths: &Vec<String>) -> (r: Option<Vec<u8>>)
    ensures
        r is Some <==> drop_block(text::views(paths@)) is Some,
        r matches Some(bytes) ==> drop_block(text::views(paths@)) == Some(bytes@),
{
    if paths.len() == 0 {
        return None;
    }
    let ghost all = text::views(paths@);
    let mut out: Vec<u8> = Vec::new();
    dib::push32(&mut out, 20);
    dib::push32(&mut out, 0);
    dib::push32(&mut out, 0);
    dib::push32(&mut out, 0);
    dib::push32(&mut out, 1);
    assert(out@ =~= drop_header());
    let mut units: Vec<u16> = Vec::new();
    let mut i: usize = 0;
    assert(units@ =~= drop_units(all.take(0)));
    while i < paths.len()
        invariant
            i <= paths@.len(),
            all == text::views(paths@),
            units@ == drop_units(all.take(i as int)),
        decreases paths@.len() - i,
    {
        let ghost upto = all.take(i as int + 1);
        let ghost before = units@;
        assert(upto.drop_last() =~= all.take(i as int));
        let mut path = utf16::wide(&paths[i]);
        let ghost added = path@;
        units.append(&mut path);
        assert(units@ =~= before + added);
        assert(units@ =~= drop_units(upto));
        i += 1;
    }
    assert(all.take(i as int) =~= all);
    units.push(0);
    push_units(&mut out, &units);
    assert(out@ =~= drop_header() + unit_bytes(drop_units(all).push(0)));
    Some(out)
}

// ----------------------------------------------------------------------- payloads

/// The clipboard format and the bytes a payload is published as; `None` when
/// there is nothing to publish.
pub open spec fn block_of(payload: PayloadView) -> Option<(u32, Seq<u8>)> {
    match payload {
        PayloadView::Text(s) => match text_block(s) {
            Some(bytes) => Some((CF_UNICODETEXT, bytes)),
            None => None,
        },
        PayloadView::Files(paths) => match drop_block(paths) {
            Some(bytes) => Some((CF_HDROP, bytes)),
            None => None,
        },
        PayloadView::Image(file) => match published(file) {
            Some(bytes) => Some((CF_DIB, bytes)),
            None => None,
        },
    }
}

/// What has to be put on the clipboard for a payload.
pub fn write(payload: &ClipPayload) -> (r: Option<(u32, Vec<u8>)>)
    ensures
        r is Some <==> block_of(payload@) is Some,
        r matches Some(block) ==> block_of(payload@) == Some((block.0, block.1@)),
{
    match payload {
        ClipPayload::Text(s) => match write_unicode_text(s) {
            Some(bytes) => Some((CF_UNICODETEXT, bytes)),
            None => None,
        },
        ClipPayload::Files(paths) => match write_file_drop(paths) {
            Some(bytes) => Some((CF_HDROP, bytes)),
            None => None,
        },
        ClipPayload::Image(file) => match write_dib(file.as_slice()) {
            Some(bytes) => Some((CF_DIB, bytes)),
            None => None,
        },
    }
}

/// What a copy is taken to be when several forms of it are there: files, then
/// text, then image. An empty form counts as none.
pub open spec fn preferred(
    files: Option<Seq<Seq<char>>>,
    words: Option<Seq<char>>,
    image: Option<Seq<u8>>,
) -> Option<PayloadView> {
    if files is Some && files->0.len() > 0 {
        Some(PayloadView::Files(files->0))
    } else if words is Some && words->0.len() > 0 {
        Some(PayloadView::Text(words->0))
    } else if image is Some && image->0.len() > 0 {
        Some(PayloadView::Image(image->0))
    } else {
        None
    }
}

/// Explorer puts both a file drop and a text form on the clipboard, and the file
/// drop is the more useful of the two; Excel puts both text and an image, and
/// text is what people expect to paste back.
pub fn read_locked(files: Option<Vec<String>>, words: Option<String>, image: Option<Vec<u8>>) -> (r:
    Option<ClipPayload>)
    ensures
        r is Some <==> preferred(
            match files {
                Some(paths) => Some(text::views(paths@)),
                None => None,
            },
            text::opt_view(words),
            match image {
                Some(file) => Some(file@),
                None => None,
            },
        ) is Some,
        r matches Some(payload) ==> preferred(
            match files {
                Some(paths) => Some(text::views(paths@)),
                None => None,
            },
            text::opt_view(words),
            match image {
                Some(file) => Some(file@),
                None => None,
            },
        ) == Some(payload@),
{
    if let Some(paths) = files {
        if paths.len() > 0 {
            return Some(ClipPayload::Files(paths));
        }
    }
    if let Some(s) = words {
        if !s.as_str().is_empty() {
            return Some(ClipPayload::Text(s));
        }
    }
    if let Some(file) = image {
        if file.len() > 0 {
            return Some(ClipPayload::Image(file));
        }
    }
    None
}

// ----------------------------------------------------------------------- the laws

/// The units that stand in a block from a byte on.
pub open spec fn units_from(block: Seq<u8>, from: int) -> Seq<u16> {
    Seq::new(
        ((block.len() - from) / 2) as nat,
        |i: int| (block[from + 2 * i] + 256 * block[from + 2 * i + 1]) as u16,
    )
}

/// Where the first zero stands, or the end.
pub open spec fn first_zero(units: Seq<u16>) -> int
    decreases units.len(),
{
    if units.len() == 0 || units[0] == 0 {
        0
    } else {
        1 + first_zero(units.drop_first())
    }
}

/// The names in a list of names that a zero ends each, up to an empty one.
pub open spec fn names_until_empty(units: Seq<u16>) -> Seq<Seq<char>>
    decreases units.len(),
{
    let k = first_zero(units);
    if k <= 0 || k >= units.len() {
        Seq::empty()
    } else {
        seq![utf16::decoded(units.take(k))] + names_until_empty(units.skip(k + 1))
    }
}

/// A block of dropped files the way a program reads it: the names begin at the offset
/// the block starts with, and are of two bytes a unit where the fifth number says so,
/// else of one.
pub open spec fn dropped_names(block: Seq<u8>) -> Seq<Seq<char>> {
    let from = dib::number_at(block, 0);
    if dib::number_at(block, 16) != 0 {
        names_until_empty(units_from(block, from))
    } else {
        names_until_empty(
            Seq::new((block.len() - from) as nat, |i: int| block[from + i] as u16),
        )
    }
}

proof fn lemma_first_zero(units: Seq<u16>, rest: Seq<u16>)
    requires
        forall|i: int| 0 <= i < units.len() ==> units[i] != 0,
    ensures
        first_zero(units.push(0) + rest) == units.len(),
    decreases units.len(),
{
    let all = units.push(0) + rest;
    if units.len() > 0 {
        let tail = units.drop_first();
        assert(all[0] == units[0]);
        assert(all.drop_first() =~= tail.push(0) + rest);
        assert forall|i: int| 0 <= i < tail.len() implies tail[i] != 0 by {
            assert(tail[i] == units[i + 1]);
        }
        lemma_first_zero(tail, rest);
    } else {
        assert(all[0] == 0);
    }
}

proof fn lemma_drop_units_front(first: Seq<char>, rest: Seq<Seq<char>>)
    ensures
        drop_units(seq![first] + rest) == utf16::encoded(first).push(0) + drop_units(rest),
    decreases rest.len(),
{
    let all = seq![first] + rest;
    if rest.len() == 0 {
        assert(all.drop_last() =~= Seq::empty());
        assert(all.last() == first);
        assert(drop_units(all.drop_last()) =~= Seq::empty());
        assert(drop_units(all) =~= utf16::encoded(first).push(0) + drop_units(rest));
    } else {
        lemma_drop_units_front(first, rest.drop_last());
        assert(all.drop_last() =~= seq![first] + rest.drop_last());
        assert(all.last() == rest.last());
        assert(drop_units(all) =~= utf16::encoded(first).push(0) + drop_units(rest));
    }
}

proof fn lemma_names_come_back(paths: Seq<Seq<char>>)
    requires
        forall|i: int|
            0 <= i < paths.len() ==> (#[trigger] paths[i]).len() > 0 && !paths[i].contains('\0'),
    ensures
        names_until_empty(drop_units(paths).push(0)) == paths,
    decreases paths.len(),
{
    let all = drop_units(paths).push(0);
    if paths.len() == 0 {
        assert(all =~= seq![0u16]);
        assert(first_zero(all) == 0);
        assert(names_until_empty(all) =~= paths);
    } else {
        let first = paths[0];
        let rest = paths.drop_first();
        let units = utf16::encoded(first);
        let tail = drop_units(rest).push(0);
        assert(seq![first] + rest =~= paths);
        lemma_drop_units_front(first, rest);
        assert(all =~= units.push(0) + tail);
        assert(first.len() > 0 && !first.contains('\0'));
        utf16::lemma_no_nul(first);
        utf16::law_utf16_round_trip(first);
        lemma_first_zero(units, tail);
        let k = units.len() as int;
        assert(all.take(k) =~= units);
        assert(all.skip(k + 1) =~= tail);
        assert forall|i: int| 0 <= i < rest.len() implies (#[trigger] rest[i]).len() > 0
            && !rest[i].contains('\0') by {
            assert(rest[i] == paths[i + 1]);
        }
        lemma_names_come_back(rest);
        assert(names_until_empty(all) =~= paths);
    }
}

proof fn lemma_units_from(head: Seq<u8>, units: Seq<u16>)
    ensures
        units_from(head + unit_bytes(units), head.len() as int) == units,
{
    let block = head + unit_bytes(units);
    let n = head.len() as int;
    assert forall|i: int| 0 <= i < units.len() implies units_from(block, n)[i] == units[i] by {
        let u = units[i];
        assert((2 * i) / 2 == i && (2 * i) % 2 == 0);
        assert((2 * i + 1) / 2 == i && (2 * i + 1) % 2 == 1);
        assert(block[n + 2 * i] == unit_bytes(units)[2 * i]);
        assert(block[n + 2 * i + 1] == unit_bytes(units)[2 * i + 1]);
        assert(u == u % 256 + 256 * (u / 256));
    }
    assert(units_from(block, n) =~= units);
}

/// A published file list reads back as the same list.
pub proof fn law_file_list_is_read_back(paths: Seq<Seq<char>>)
    requires
        paths.len() > 0,
        forall|i: int|
            0 <= i < paths.len() ==> (#[trigger] paths[i]).len() > 0 && !paths[i].contains('\0'),
    ensures
        drop_block(paths) is Some,
        dropped_names(drop_block(paths)->0) == paths,
        dib::number_at(drop_block(paths)->0, 0) == 20,
        dib::number_at(drop_block(paths)->0, 16) == 1,
        forall|i: int| 4 <= i < 16 ==> #[trigger] drop_block(paths)->0[i] == 0,
{
    let block = drop_block(paths)->0;
    let head = drop_header();
    let units = drop_units(paths).push(0);
    assert(head.len() == 20);
    assert(dib::bytes32(20) =~= seq![20u8, 0, 0, 0]);
    assert(dib::bytes32(1) =~= seq![1u8, 0, 0, 0]);
    assert(dib::bytes32(0) =~= seq![0u8, 0, 0, 0]);
    assert forall|i: int| 0 <= i < 20 implies block[i] == head[i] by {}
    assert(block[0] == 20 && block[1] == 0 && block[2] == 0 && block[3] == 0);
    assert(block[16] == 1 && block[17] == 0 && block[18] == 0 && block[19] == 0);
    assert forall|i: int| 4 <= i < 16 implies #[trigger] block[i] == 0 by {
        assert(block[i] == head[i]);
    }
    lemma_units_from(head, units);
    lemma_names_come_back(paths);
}

/// A text is published two bytes a unit, the low one first, with a zero unit at its
/// end; and there is a block for every text but the empty one.
pub proof fn law_text_block(s: Seq<char>)
    ensures
        text_block(s) is Some <==> s.len() > 0,
        s.len() > 0 ==> units_from(text_block(s)->0, 0) == utf16::encoded(s).push(0),
        s.len() > 0 ==> text_block(s)->0.len() == 2 * (utf16::encoded(s).len() + 1),
{
    let units = utf16::encoded(s).push(0);
    lemma_units_from(Seq::empty(), units);
    assert(Seq::<u8>::empty() + unit_bytes(units) =~= unit_bytes(units));
}

/// Text goes onto the clipboard as format 13, files as format 15 and an image as
/// format 8, and nothing goes there without its block.
pub proof fn law_formats(s: Seq<char>, paths: Seq<Seq<char>>, file: Seq<u8>)
    ensures
        block_of(PayloadView::Text(s)) is Some <==> s.len() > 0,
        s.len() > 0 ==> block_of(PayloadView::Text(s)) == Some((13u32, text_block(s)->0)),
        block_of(PayloadView::Files(paths)) is Some <==> paths.len() > 0,
        paths.len() > 0 ==> block_of(PayloadView::Files(paths))->0 == (15u32, drop_block(paths)->0),
        block_of(PayloadView::Image(file)) is Some <==> published(file) is Some,
        published(file) is Some ==> block_of(PayloadView::Image(file))->0 == (
            8u32,
            published(file)->0,
        ),
{
}

/// Of several forms of a copy the files are taken first, then the text, and the image
/// only when there is neither; an empty form is none.
pub proof fn law_which_form_is_taken(
    files: Seq<Seq<char>>,
    words: Seq<char>,
    image: Seq<u8>,
    any_files: Option<Seq<Seq<char>>>,
    any_words: Option<Seq<char>>,
    any_image: Option<Seq<u8>>,
)
    ensures
        files.len() > 0 ==> preferred(Some(files), any_words, any_image) == Some(
            PayloadView::Files(files),
        ),
        preferred(Some(Seq::empty()), any_words, any_image) == preferred(
            None,
            any_words,
            any_image,
        ),
        words.len() > 0 ==> preferred(None, Some(words), any_image) == Some(
            PayloadView::Text(words),
        ),
        preferred(None, Some(Seq::empty()), any_image) == preferred(None, None, any_image),
        image.len() > 0 ==> preferred(None, None, Some(image)) == Some(PayloadView::Image(image)),
        preferred(None, None, Some(Seq::empty())) is None,
        preferred(None, None, None) is None,
        preferred(any_files, any_words, any_image) matches Some(payload)
            ==> !crate::clip::payload_empty(payload),
{
}

/// What is read out of a text block is what stands before the first zero unit.
pub proof fn law_text_ends_at_a_zero(units: Seq<u16>, rest: Seq<u16>)
    requires
        forall|i: int| 0 <= i < units.len() ==> units[i] != 0,
    ensures
        units.len() > 0 ==> block_text(unit_bytes(units.push(0) + rest)) == Some(
            utf16::decoded(units),
        ),
        units.len() == 0 ==> block_text(unit_bytes(units.push(0) + rest)) is None,
{
    let all = units.push(0) + rest;
    let bytes = unit_bytes(all);
    assert(units_in(bytes) =~= all) by {
        assert forall|i: int| 0 <= i < all.len() implies units_in(bytes)[i] == all[i] by {
            let u = all[i];
            assert((2 * i) / 2 == i && (2 * i) % 2 == 0);
            assert((2 * i + 1) / 2 == i && (2 * i + 1) % 2 == 1);
            assert(bytes[2 * i] == u % 256);
            assert(bytes[2 * i + 1] == u / 256);
        }
    }
    lemma_before_zero(units, rest);
}

proof fn lemma_before_zero(units: Seq<u16>, rest: Seq<u16>)
    requires
        forall|i: int| 0 <= i < units.len() ==> units[i] != 0,
    ensures
        before_nul(units.push(0) + rest) == units,
    decreases units.len(),
{
    let all = units.push(0) + rest;
    if units.len() > 0 {
        let tail = units.drop_first();
        assert(all[0] == units[0]);
        assert(all.drop_first() =~= tail.push(0) + rest);
        assert forall|i: int| 0 <= i < tail.len() implies tail[i] != 0 by {
            assert(tail[i] == units[i + 1]);
        }
        lemma_before_zero(tail, rest);
        assert(before_nul(all) =~= units);
    } else {
        assert(all[0] == 0);
        assert(before_nul(all) =~= units);
    }
}

} // verus!
