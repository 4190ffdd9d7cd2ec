use vstd::prelude::*;

verus! {

/// The GPU formats textures are uploaded in.
#[derive(Clone, Copy, Debug, PartialEq, Eq, Structural)]
pub enum TextureFormat {
    /// Four 8-bit normalized channels.
    R8G8B8A8Unorm,
    /// Four 32-bit float channels.
    R32G32B32A32Sfloat,
}

/// Pixel layouts of decoded source images.
#[derive(Clone, Copy, Debug, PartialEq, Eq, Structural)]
pub enum SourceFormat {
    R8,
    R8G8,
    R8G8B8,
    R8G8B8A8,
    R16,
    R16G16,
    R16G16B16,
    R16G16B16A16,
    R32G32B32Float,
    R32G32B32A32Float,
}

/// Bytes of one pixel in `format`.
pub open spec fn format_bytes(format: TextureFormat) -> nat {
    match format {
        TextureFormat::R8G8B8A8Unorm => 4,
        TextureFormat::R32G32B32A32Sfloat => 16,
    }
}

/// Bytes of one pixel in `format`.
pub fn bytes_per_pixel(format: TextureFormat) -> (r: usize)
    ensures
        r == format_bytes(format),
{
    match format {
        TextureFormat::R8G8B8A8Unorm => 4,
        TextureFormat::R32G32B32A32Sfloat => 16,
    }
}

/// The upload format of an image of `byte_len` bytes and `width * height`
/// pixels, chosen by its bytes per pixel: 4 or 16; any other size has none.
pub fn format_for_image(byte_len: usize, width: u32, height: u32) -> (r: Option<TextureFormat>)
    requires
        width > 0,
        height > 0,
    ensures
        r == Some(TextureFormat::R8G8B8A8Unorm) <==> byte_len as int / (width * height) == 4,
        r == Some(TextureFormat::R32G32B32A32Sfloat) <==> byte_len as int / (width * height) == 16,
        r.is_none() <==> byte_len as int / (width * height) != 4 && byte_len as int / (width * height) != 16,
{
    let w = width as u64;
    let h = height as u64;
    assert(w * h <= 0xffff_ffff * 0xffff_ffff) by (nonlinear_arith)
        requires
            w <= 0xffff_ffff,
            h <= 0xffff_ffff,
    ;
    let pixels = w * h;
    assert(pixels > 0) by (nonlinear_arith)
        requires
            width > 0,
            height > 0,
            pixels == width * height,
    ;
    let bpp = byte_len as u64 / pixels;
    if bpp == 4 {
        Some(TextureFormat::R8G8B8A8Unorm)
    } else if bpp == 16 {
        Some(TextureFormat::R32G32B32A32Sfloat)
    } else {
        None
    }
}

/// Whether `byte_len` is exactly the size of a `width` by `height` image in
/// `format`.
pub fn matches_extent(format: TextureFormat, byte_len: usize, width: u32, height: u32) -> (r: bool)
    ensures
        r == (byte_len == width * height * format_bytes(format)),
{
    let w = width as u128;
    let h = height as u128;
    let b = bytes_per_pixel(format) as u128;
    assert(w * h * b <= 0xffff_ffff * 0xffff_ffff * 16) by (nonlinear_arith)
        requires
            w <= 0xffff_ffff,
            h <= 0xffff_ffff,
            b <= 16,
    ;
    let expected = w * h * b;
    byte_len as u128 == expected
}

/// The padded value of channel `c` of pixel `p`.
pub open spec fn padded_channel(bytes: Seq<u8>, src_bytes_per_pixel: int, p: int, c: int) -> u8 {
    if c < src_bytes_per_pixel {
        bytes[p * src_bytes_per_pixel + c]
    } else if c == 3 {
        255
    } else {
        0
    }
}

/// Widens pixels of `src_bytes_per_pixel` channels to four: channels the
/// source has are copied, missing colour channels are 0 and a missing
/// alpha is 255.
pub fn padd_pixel_bytes_rgba_unorm(
    bytes: &[u8],
    src_bytes_per_pixel: u32,
    width: usize,
    height: usize,
) -> (r: Vec<u8>)
    requires
        width * height * 4 <= usize::MAX,
        width * height * src_bytes_per_pixel <= bytes@.len(),
    ensures
        r@.len() == width * height * 4,
        forall|p: int, c: int|
            0 <= p < width * height && 0 <= c < 4 ==> r@[p * 4 + c] == padded_channel(
                bytes@,
                src_bytes_per_pixel as int,
                p,
                c,
            ),
{
    let pixels = width * height;
    let src = src_bytes_per_pixel as usize;
    let blen = bytes.len();
    let mut padded: Vec<u8> = Vec::new();
    let mut p: usize = 0;
    let mut q: usize = 0;
    while p < pixels
        invariant
            pixels == width * height,
            pixels * 4 <= usize::MAX,
            pixels * src <= bytes@.len(),
            blen == bytes@.len(),
            src == src_bytes_per_pixel,
            p <= pixels,
            q == p * src,
            padded@.len() == p * 4,
            forall|pp: int, c: int|
                0 <= pp < p && 0 <= c < 4 ==> padded@[pp * 4 + c] == padded_channel(
                    bytes@,
                    src as int,
                    pp,
                    c,
                ),
        decreases pixels - p,
    {
        assert(q + src <= pixels * src) by (nonlinear_arith)
            requires
                q == p * src,
                p < pixels,
        ;
        let mut c: usize = 0;
        while c < 4
            invariant
                pixels == width * height,
                p < pixels,
                q == p * src,
                q + src <= bytes@.len(),
                blen == bytes@.len(),
                src == src_bytes_per_pixel,
                c <= 4,
                padded@.len() == p * 4 + c,
                forall|pp: int, cc: int|
                    0 <= pp < p && 0 <= cc < 4 ==> padded@[pp * 4 + cc] == padded_channel(
                        bytes@,
                        src as int,
                        pp,
                        cc,
                    ),
                forall|cc: int| 0 <= cc < c ==> padded@[p * 4 + cc] == padded_channel(
                    bytes@,
                    src as int,
                    p as int,
                    cc,
                ),
            decreases 4 - c,
        {
            let v: u8 = if c < src {
                bytes[q + c]
            } else if c == 3 {
                255
            } else {
                0
            };
            padded.push(v);
            c = c + 1;
        }
        assert(padded@.len() == (p + 1) * 4);
        p = p + 1;
        q = q + src;
        assert(q == p * src) by (nonlinear_arith)
            requires
                q == (p - 1) * src + src,
        ;
    }
    padded
}

/// The RGBA8 pixels to upload for a decoded image, or `None` when its
/// layout is not supported (the caller then falls back to the default
/// texture). Four-channel images are used as they are; three- and
/// one-channel images are padded.
pub fn rgba8_pixels(format: SourceFormat, pixels: &Vec<u8>, width: u32, height: u32) -> (r: Option<Vec<u8>>)
    requires
        width * height * format_channels(format) <= pixels@.len(),
        width * height * 4 <= usize::MAX,
    ensures
        r.is_some() <==> (format == SourceFormat::R8G8B8A8 || format == SourceFormat::R8G8B8
            || format == SourceFormat::R8),
        format == SourceFormat::R8G8B8A8 ==> (r matches Some(v) && v@ == pixels@),
        (format == SourceFormat::R8G8B8 || format == SourceFormat::R8) ==> (r matches Some(v) && {
            &&& v@.len() == width * height * 4
            &&& forall|p: int, c: int|
                0 <= p < width * height && 0 <= c < 4 ==> v@[p * 4 + c] == padded_channel(
                    pixels@,
                    format_channels(format) as int,
                    p,
                    c,
                )
        }),
{
    match format {
        SourceFormat::R8G8B8A8 => Some(pixels.clone()),
        SourceFormat::R8G8B8 => {
            Some(padd_pixel_bytes_rgba_unorm(pixels.as_slice(), 3, width as usize, height as usize))
        },
        SourceFormat::R8 => {
            Some(padd_pixel_bytes_rgba_unorm(pixels.as_slice(), 1, width as usize, height as usize))
        },
        _ => None,
    }
}

/// Bytes of one pixel of a source layout, as far as padding reads it.
pub open spec fn format_channels(format: SourceFormat) -> nat {
    match format {
        SourceFormat::R8 => 1,
        SourceFormat::R8G8B8 => 3,
        SourceFormat::R8G8B8A8 => 4,
        _ => 0,
    }
}

/// Bytes of one pixel of a layout that can be turned into RGBA8; 0 for
/// the others.
pub fn source_channels(format: SourceFormat) -> (r: usize)
    ensures
        r == format_channels(format),
{
    match format {
        SourceFormat::R8 => 1,
        SourceFormat::R8G8B8 => 3,
        SourceFormat::R8G8B8A8 => 4,
        _ => 0,
    }
}

} // verus!
