use vstd::prelude::*;

verus! {

/// The packed single-plane pixel formats a frame may carry.
#[derive(Clone, Copy, Debug, PartialEq, Eq, Structural)]
pub enum PixelFormat {
    Gray8,
    Rgb,
    Bgr,
    Rgbx,
    Xrgb,
    Bgrx,
    Xbgr,
    Rgba,
    Argb,
    Bgra,
    Abgr,
    Gray16Le,
    Gray16Be,
}

/// Sample layout of a pixel: channel count and bit depth.
#[derive(Clone, Copy, Debug, PartialEq, Eq, Structural)]
pub enum PixelKind {
    /// One 8-bit channel.
    U8C1,
    /// Three 8-bit channels.
    U8C3,
    /// Four 8-bit channels.
    U8C4,
    /// One 16-bit channel.
    U16C1,
}

pub open spec fn kind_of(f: PixelFormat) -> PixelKind {
    match f {
        PixelFormat::Gray8 => PixelKind::U8C1,
        PixelFormat::Rgb | PixelFormat::Bgr => PixelKind::U8C3,
        PixelFormat::Gray16Le | PixelFormat::Gray16Be => PixelKind::U16C1,
        _ => PixelKind::U8C4,
    }
}

/// The formats of one kind, in the order they are advertised.
pub open spec fn formats_of(k: PixelKind) -> Seq<PixelFormat> {
    match k {
        PixelKind::U8C1 => seq![PixelFormat::Gray8],
        PixelKind::U8C3 => seq![PixelFormat::Rgb, PixelFormat::Bgr],
        PixelKind::U8C4 => seq![
            PixelFormat::Rgbx,
            PixelFormat::Xrgb,
            PixelFormat::Bgrx,
            PixelFormat::Xbgr,
            PixelFormat::Rgba,
            PixelFormat::Argb,
            PixelFormat::Bgra,
            PixelFormat::Abgr,
        ],
        PixelKind::U16C1 => seq![PixelFormat::Gray16Le, PixelFormat::Gray16Be],
    }
}

/// Every supported format: the kinds in order U8C1, U8C3, U8C4, U16C1.
pub open spec fn all_formats() -> Seq<PixelFormat> {
    formats_of(PixelKind::U8C1) + formats_of(PixelKind::U8C3) + formats_of(PixelKind::U8C4)
        + formats_of(PixelKind::U16C1)
}

/// Bytes one pixel occupies in a packed row.
pub open spec fn bytes_per_pixel(k: PixelKind) -> nat {
    match k {
        PixelKind::U8C1 => 1,
        PixelKind::U8C3 => 3,
        PixelKind::U8C4 => 4,
        PixelKind::U16C1 => 2,
    }
}

/// Independent samples per pixel.
pub open spec fn channels(k: PixelKind) -> nat {
    match k {
        PixelKind::U16C1 => 1,
        _ => bytes_per_pixel(k),
    }
}

/// Whether a 16-bit format stores its high byte first.
pub open spec fn is_big_endian(f: PixelFormat) -> bool {
    f == PixelFormat::Gray16Be
}

/// The sample layout of a pixel format.
pub fn image_kind(format: PixelFormat) -> (k: PixelKind)
    ensures
        k == kind_of(format),
{
    match format {
        PixelFormat::Gray8 => PixelKind::U8C1,
        PixelFormat::Rgb | PixelFormat::Bgr => PixelKind::U8C3,
        PixelFormat::Rgbx
        | PixelFormat::Xrgb
        | PixelFormat::Bgrx
        | PixelFormat::Xbgr
        | PixelFormat::Rgba
        | PixelFormat::Argb
        | PixelFormat::Bgra
        | PixelFormat::Abgr => PixelKind::U8C4,
        PixelFormat::Gray16Le | PixelFormat::Gray16Be => PixelKind::U16C1,
    }
}

/// The pixel formats that share a sample layout.
pub fn formats_of_kind(kind: PixelKind) -> (r: Vec<PixelFormat>)
    ensures
        r@ == formats_of(kind),
{
    let mut ret: Vec<PixelFormat> = Vec::new();
    match kind {
        PixelKind::U8C1 => ret.push(PixelFormat::Gray8),
        PixelKind::U8C3 => {
            ret.push(PixelFormat::Rgb);
            ret.push(PixelFormat::Bgr);
        },
        PixelKind::U8C4 => {
            ret.push(PixelFormat::Rgbx);
            ret.push(PixelFormat::Xrgb);
            ret.push(PixelFormat::Bgrx);
            ret.push(PixelFormat::Xbgr);
            ret.push(PixelFormat::Rgba);
            ret.push(PixelFormat::Argb);
            ret.push(PixelFormat::Bgra);
            ret.push(PixelFormat::Abgr);
        },
        PixelKind::U16C1 => {
            ret.push(PixelFormat::Gray16Le);
            ret.push(PixelFormat::Gray16Be);
        },
    }
    assert(ret@ =~= formats_of(kind));
    ret
}

/// Every format the element accepts on either side, grouped by kind.
pub fn supported_formats() -> (r: Vec<PixelFormat>)
    ensures
        r@ == all_formats(),
{
    let mut formats = formats_of_kind(PixelKind::U8C1);
    let mut more = formats_of_kind(PixelKind::U8C3);
    formats.append(&mut more);
    let mut more = formats_of_kind(PixelKind::U8C4);
    formats.append(&mut more);
    let mut more = formats_of_kind(PixelKind::U16C1);
    formats.append(&mut more);
    formats
}

/// Bytes one pixel of the given kind occupies.
pub fn pixel_size(kind: PixelKind) -> (n: usize)
    ensures
        n == bytes_per_pixel(kind),
{
    match kind {
        PixelKind::U8C1 => 1,
        PixelKind::U8C3 => 3,
        PixelKind::U8C4 => 4,
        PixelKind::U16C1 => 2,
    }
}

/// A format is listed under a kind exactly when it has that kind.
pub proof fn lemma_formats_of_kind_exact(f: PixelFormat, k: PixelKind)
    ensures
        formats_of(k).contains(f) <==> kind_of(f) == k,
{
    if kind_of(f) == k {
        match f {
            PixelFormat::Gray8 => assert(formats_of(k)[0] == f),
            PixelFormat::Rgb => assert(formats_of(k)[0] == f),
            PixelFormat::Bgr => assert(formats_of(k)[1] == f),
            PixelFormat::Rgbx => assert(formats_of(k)[0] == f),
            PixelFormat::Xrgb => assert(formats_of(k)[1] == f),
            PixelFormat::Bgrx => assert(formats_of(k)[2] == f),
            PixelFormat::Xbgr => assert(formats_of(k)[3] == f),
            PixelFormat::Rgba => assert(formats_of(k)[4] == f),
            PixelFormat::Argb => assert(formats_of(k)[5] == f),
            PixelFormat::Bgra => assert(formats_of(k)[6] == f),
            PixelFormat::Abgr => assert(formats_of(k)[7] == f),
            PixelFormat::Gray16Le => assert(formats_of(k)[0] == f),
            PixelFormat::Gray16Be => assert(formats_of(k)[1] == f),
        }
    }
    if formats_of(k).contains(f) {
        let i = choose|i: int| 0 <= i < formats_of(k).len() && formats_of(k)[i] == f;
        assert(kind_of(formats_of(k)[i]) == k);
    }
}

} // verus!
