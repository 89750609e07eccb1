//! Images carried with a prompt.

use vstd::prelude::*;

use base64::Engine;

use crate::protocol::{ImageAttachment, ImageAttachmentV};

verus! {

/// The longest side a pasted image may keep.
pub const MAX_SIDE: u32 = 1600;

/// The largest PNG that is attached, in bytes.
pub const MAX_PNG: usize = 8388608;

// ── Base64 ──────────────────────────────────────────────────────────────────

/// The character of the standard base64 alphabet for `n`.
pub open spec fn base64_char(n: int) -> char {
    if n < 26 {
        ('A' as u32 + n) as char
    } else if n < 52 {
        ('a' as u32 + n - 26) as char
    } else if n < 62 {
        ('0' as u32 + n - 52) as char
    } else if n == 62 {
        '+'
    } else {
        '/'
    }
}

/// Standard base64 with padding.
pub open spec fn base64_of(bytes: Seq<u8>) -> Seq<char>
    decreases bytes.len(),
{
    if bytes.len() == 0 {
        Seq::empty()
    } else {
        let a = bytes[0] as int;
        let b = if bytes.len() > 1 {
            bytes[1] as int
        } else {
            0
        };
        let c = if bytes.len() > 2 {
            bytes[2] as int
        } else {
            0
        };
        let group = seq![
            base64_char(a / 4),
            base64_char(a % 4 * 16 + b / 16),
            if bytes.len() > 1 {
                base64_char(b % 16 * 4 + c / 64)
            } else {
                '='
            },
            if bytes.len() > 2 {
                base64_char(c % 64)
            } else {
                '='
            },
        ];
        if bytes.len() <= 3 {
            group
        } else {
            group + base64_of(bytes.skip(3))
        }
    }
}

/// Whether the base64 of `n` bytes fits in memory.
pub open spec fn base64_fits(n: nat) -> bool {
    (n + 2) / 3 * 4 <= isize::MAX
}

/// `Engine::encode` of `base64::engine::general_purpose::STANDARD`: the standard
/// alphabet, padded. It panics where the encoded length cannot be allocated,
/// which `base64_fits` rules out.
#[verifier::external_body]
pub(crate) fn encode_base64(bytes: &Vec<u8>) -> (out: String)
    requires
        base64_fits(bytes@.len()),
    ensures
        out@ == base64_of(bytes@),
{
    base64::engine::general_purpose::STANDARD.encode(bytes)
}

// ── Pasted images ───────────────────────────────────────────────────────────

/// `pixels` holds an image of this size, four bytes per pixel.
pub open spec fn holds_image(width: u32, height: u32, len: nat) -> bool {
    width * height * 4 <= len
}

/// Whether the intermediate image of a resize fits in memory: four components
/// of four bytes per pixel.
pub open spec fn resize_fits(width: u32, to_width: u32, to_height: u32) -> bool {
    &&& 0 < to_width <= MAX_SIDE
    &&& 0 < to_height <= MAX_SIDE
    &&& width * to_height * 16 <= isize::MAX
    &&& to_width * to_height * 4 <= isize::MAX
}

/// The pixels that `image::imageops::resize` gives with the triangle filter.
pub uninterp spec fn resized_pixels(
    width: u32,
    height: u32,
    pixels: Seq<u8>,
    to_width: u32,
    to_height: u32,
) -> Seq<u8>;

/// The PNG that `image::RgbaImage::write_to` writes; nothing where it reports an
/// error.
pub uninterp spec fn png_bytes(width: u32, height: u32, pixels: Seq<u8>) -> Option<Seq<u8>>;

/// `image::imageops::resize` with `FilterType::Triangle`. The new pixels are
/// named, not spelled out; there are four bytes for each.
#[verifier::external_body]
fn resize_image(width: u32, height: u32, pixels: &Vec<u8>, to_width: u32, to_height: u32) -> (out:
    Vec<u8>)
    requires
        holds_image(width, height, pixels@.len()),
        resize_fits(width, to_width, to_height),
    ensures
        out@ == resized_pixels(width, height, pixels@, to_width, to_height),
        out@.len() == to_width * to_height * 4,
{
    let img = image::RgbaImage::from_raw(width, height, pixels.clone()).unwrap_or_default();
    image::imageops::resize(&img, to_width, to_height, image::imageops::FilterType::Triangle).into_raw()
}

/// `image::RgbaImage::write_to` with `ImageFormat::Png` into memory. The bytes
/// are named, not spelled out.
#[verifier::external_body]
fn encode_png(width: u32, height: u32, pixels: &Vec<u8>) -> (out: Option<Vec<u8>>)
    requires
        holds_image(width, height, pixels@.len()),
    ensures
        match out {
            Some(png) => png_bytes(width, height, pixels@) == Some(png@),
            None => png_bytes(width, height, pixels@) is None,
        },
{
    let img = image::RgbaImage::from_raw(width, height, pixels.clone())?;
    let mut png: Vec<u8> = Vec::new();
    img.write_to(&mut std::io::Cursor::new(&mut png), image::ImageFormat::Png).ok()?;
    Some(png)
}

/// A pasted image ready to be sent, or why it is not.
#[derive(Debug, PartialEq)]
pub enum Staged {
    Image { image: ImageAttachment, width: u32, height: u32 },
    Failed(String),
}

/// Model of [`Staged`].
pub enum StagedV {
    Image { image: ImageAttachmentV, width: u32, height: u32 },
    Failed(Seq<char>),
}

impl DeepView for Staged {
    type V = StagedV;

    open spec fn deep_view(&self) -> StagedV {
        match self {
            Staged::Image { image, width, height } => StagedV::Image {
                image: image.deep_view(),
                width: *width,
                height: *height,
            },
            Staged::Failed(why) => StagedV::Failed(why@),
        }
    }
}

/// What becomes of an encoded image of this size.
pub open spec fn staged_png(png: Option<Seq<u8>>, width: u32, height: u32) -> StagedV {
    match png {
        None => StagedV::Failed("PNG 编码失败"@),
        Some(bytes) => if bytes.len() > MAX_PNG {
            StagedV::Failed("图片过大（>8 MB）"@)
        } else {
            StagedV::Image {
                image: ImageAttachmentV { mime: "image/png"@, base64: base64_of(bytes) },
                width,
                height,
            }
        },
    }
}

/// What becomes of a pasted image; one with a side longer than [`MAX_SIDE`] is
/// first scaled to the target size.
pub open spec fn staged(
    width: u32,
    height: u32,
    pixels: Seq<u8>,
    to_width: u32,
    to_height: u32,
) -> StagedV {
    if !holds_image(width, height, pixels.len()) {
        StagedV::Failed("图像数据异常"@)
    } else if width > MAX_SIDE || height > MAX_SIDE {
        staged_png(
            png_bytes(
                to_width,
                to_height,
                resized_pixels(width, height, pixels, to_width, to_height),
            ),
            to_width,
            to_height,
        )
    } else {
        staged_png(png_bytes(width, height, pixels), width, height)
    }
}

/// Whether an image of this size is scaled down before it is sent.
pub fn too_long(width: u32, height: u32) -> (r: bool)
    ensures
        r == (width > MAX_SIDE || height > MAX_SIDE),
{
    width > MAX_SIDE || height > MAX_SIDE
}

/// What becomes of an encoded image of this size.
pub fn stage_png(png: Option<Vec<u8>>, width: u32, height: u32) -> (out: Staged)
    ensures
        out.deep_view() == staged_png(
            match png {
                Some(bytes) => Some(bytes@),
                None => None,
            },
            width,
            height,
        ),
{
    match png {
        None => Staged::Failed("PNG 编码失败".to_owned()),
        Some(bytes) => if bytes.len() > MAX_PNG {
            Staged::Failed("图片过大（>8 MB）".to_owned())
        } else {
            Staged::Image {
                image: ImageAttachment {
                    mime: "image/png".to_owned(),
                    base64: encode_base64(&bytes),
                },
                width,
                height,
            }
        },
    }
}

/// Turns a pasted image, as raw RGBA pixels, into an attachment. The target size
/// counts only for an image that is [`too_long`].
pub fn stage_image(
    width: u32,
    height: u32,
    pixels: &Vec<u8>,
    to_width: u32,
    to_height: u32,
) -> (out: Staged)
    requires
        width > MAX_SIDE || height > MAX_SIDE ==> resize_fits(width, to_width, to_height),
    ensures
        out.deep_view() == staged(width, height, pixels@, to_width, to_height),
{
    proof {
        assert(0 <= width * height <= 0xffff_ffff * 0xffff_ffff) by (nonlinear_arith)
            requires
                0 <= width <= 0xffff_ffff,
                0 <= height <= 0xffff_ffff,
        ;
    }
    let needed: u128 = width as u128 * height as u128 * 4;
    if needed > pixels.len() as u128 {
        return Staged::Failed("图像数据异常".to_owned());
    }
    if too_long(width, height) {
        let small = resize_image(width, height, pixels, to_width, to_height);
        stage_png(encode_png(to_width, to_height, &small), to_width, to_height)
    } else {
        stage_png(encode_png(width, height, pixels), width, height)
    }
}

// ── Laws ────────────────────────────────────────────────────────────────────

/// A pasted image is attached as the PNG it was encoded to, whole and with its size,
/// unless the PNG is too large or there is none; then the reason is given.
pub proof fn law_encoded_image_is_attached(png: Option<Seq<u8>>, width: u32, height: u32)
    ensures
        match png {
            None => staged_png(png, width, height) is Failed,
            Some(bytes) => if bytes.len() <= 8388608 {
                staged_png(png, width, height) == (StagedV::Image {
                    image: ImageAttachmentV { mime: "image/png"@, base64: base64_of(bytes) },
                    width,
                    height,
                })
            } else {
                staged_png(png, width, height) is Failed
            },
        },
{
}

/// An image is sent in its own size if neither side is too long, and else in the size it
/// is scaled to; one whose pixels are missing is refused.
pub proof fn law_long_images_are_scaled(
    width: u32,
    height: u32,
    pixels: Seq<u8>,
    to_width: u32,
    to_height: u32,
)
    ensures
        ({
            let out = staged(width, height, pixels, to_width, to_height);
            let long = width > 1600 || height > 1600;
            &&& width * height * 4 > pixels.len() ==> out is Failed
            &&& width * height * 4 <= pixels.len() && !long ==> out == staged_png(
                png_bytes(width, height, pixels),
                width,
                height,
            )
            &&& width * height * 4 <= pixels.len() && long ==> out == staged_png(
                png_bytes(
                    to_width,
                    to_height,
                    resized_pixels(width, height, pixels, to_width, to_height),
                ),
                to_width,
                to_height,
            )
        }),
{
}

} // verus!
