//! Screen capture: the screen areas captured, the identity of a `KWin`
//! screencast stream, and the conversion of a screenshot, as `KWin` hands it
//! over in one of the `QImage` pixel formats, into a binary PPM image.

use vstd::prelude::*;

use crate::text::{decimal, push_decimal, push_text};

verus! {

/// A captured screen area.
#[derive(Clone, Copy, Debug, PartialEq, Eq, Hash, Structural)]
pub struct ScreenRegion {
    pub x: i32,
    pub y: i32,
    pub width: u32,
    pub height: u32,
}

/// A screen area of positive size.
pub fn screen_region(x: i32, y: i32, width: i32, height: i32) -> (r: Option<ScreenRegion>)
    ensures
        r == (if width > 0 && height > 0 {
            Some(ScreenRegion { x, y, width: width as u32, height: height as u32 })
        } else {
            None
        }),
{
    if width > 0 && height > 0 {
        Some(ScreenRegion { x, y, width: width as u32, height: height as u32 })
    } else {
        None
    }
}

/// The `PipeWire` stream that `KWin` opened for a screen area.
#[derive(Clone, Copy, Debug, Default, PartialEq, Eq, Hash, Structural)]
pub struct StreamIdentifier {
    pub node_id: u32,
    pub object_serial: u64,
}

/// The stream announced by a node number.
pub fn stream_from_node(node_id: u32) -> (r: StreamIdentifier)
    ensures
        r == (StreamIdentifier { node_id, object_serial: 0 }),
{
    StreamIdentifier { node_id, object_serial: 0 }
}

/// The stream announced by an object serial, sent as its high and low
/// 32-bit halves.
pub fn stream_from_serial(high: u32, low: u32) -> (r: StreamIdentifier)
    ensures
        r == (StreamIdentifier { node_id: 0, object_serial: (high * 0x1_0000_0000 + low) as u64 }),
{
    assert(high as u64 * 0x1_0000_0000u64 + low as u64 <= u64::MAX) by (nonlinear_arith);
    StreamIdentifier { node_id: 0, object_serial: high as u64 * 0x1_0000_0000u64 + low as u64 }
}

/// The stream known for a screen area after `update` arrives: each
/// non-zero part of the update replaces the part known so far.
pub open spec fn merged_stream(current: StreamIdentifier, update: StreamIdentifier) -> StreamIdentifier {
    StreamIdentifier {
        node_id: if update.node_id != 0 {
            update.node_id
        } else {
            current.node_id
        },
        object_serial: if update.object_serial != 0 {
            update.object_serial
        } else {
            current.object_serial
        },
    }
}

/// Take in what `KWin` announced of a screen area's stream; returns whether
/// what is known changed, so that the captures are drawn again.
pub fn merge_stream(current: &mut StreamIdentifier, update: StreamIdentifier) -> (changed: bool)
    ensures
        *final(current) == merged_stream(*old(current), update),
        changed == (*final(current) != *old(current)),
{
    let previous = *current;
    if update.node_id != 0 {
        current.node_id = update.node_id;
    }
    if update.object_serial != 0 {
        current.object_serial = update.object_serial;
    }
    previous.node_id != current.node_id || previous.object_serial != current.object_serial
}

/// The capture generation after a change: one more, wrapping around.
pub fn next_capture_generation(generation: i32) -> (r: i32)
    ensures
        r == (if generation == i32::MAX {
            i32::MIN
        } else {
            (generation + 1) as i32
        }),
{
    if generation == i32::MAX {
        i32::MIN
    } else {
        generation + 1
    }
}

/// The layout of a `QImage::Format` value: bytes per pixel, then the
/// positions of red, green and blue within a pixel.
pub open spec fn pixel_layout(format: u32) -> Option<(nat, int, int, int)> {
    if 4 <= format <= 6 {
        Some((4, 2, 1, 0))
    } else if format == 13 {
        Some((3, 0, 1, 2))
    } else if format == 17 || format == 18 || format == 30 {
        Some((4, 0, 1, 2))
    } else if format == 29 {
        Some((3, 2, 1, 0))
    } else {
        None
    }
}

/// The red, green and blue bytes of pixel `x` of the row starting at
/// `row_start`, or why they cannot be read.
pub open spec fn pixel_rgb(pixels: Seq<u8>, row_start: int, x: u32, format: u32) -> Result<
    Seq<u8>,
    Seq<char>,
> {
    match pixel_layout(format) {
        None => Err("KWin returned unsupported QImage format "@ + decimal(format as nat)),
        Some((size, red, green, blue)) => {
            let offset = row_start + x * size;
            if offset > usize::MAX {
                Err("KWin screenshot pixel offset overflowed"@)
            } else if offset + size > pixels.len() {
                Err("KWin screenshot ended inside a pixel"@)
            } else {
                Ok(seq![pixels[offset + red], pixels[offset + green], pixels[offset + blue]])
            }
        },
    }
}

fn layout_of(format: u32) -> (r: Option<(usize, usize, usize, usize)>)
    ensures
        match pixel_layout(format) {
            Some((size, red, green, blue)) => r == Some(
                (size as usize, red as usize, green as usize, blue as usize),
            ),
            None => r is None,
        },
{
    if 4 <= format && format <= 6 {
        Some((4, 2, 1, 0))
    } else if format == 13 {
        Some((3, 0, 1, 2))
    } else if format == 17 || format == 18 || format == 30 {
        Some((4, 0, 1, 2))
    } else if format == 29 {
        Some((3, 2, 1, 0))
    } else {
        None
    }
}

/// Read pixel `x` of the row starting at `row_start` as red, green and
/// blue.
///
/// Fails for a format other than the 24- and 32-bit RGB layouts, for an
/// offset beyond the address space, and for a pixel that the data ends in.
pub fn rgb_pixel(pixels: &[u8], row_start: usize, x: u32, format: u32) -> (r: Result<[u8; 3], String>)
    ensures
        match pixel_rgb(pixels@, row_start as int, x, format) {
            Ok(rgb) => r matches Ok(a) && a@ == rgb,
            Err(m) => r matches Err(s) && s@ == m,
        },
{
    let (size, red, green, blue) = match layout_of(format) {
        Some(l) => l,
        None => {
            let mut s = String::new();
            push_text(&mut s, "KWin returned unsupported QImage format ");
            push_decimal(&mut s, format as u64);
            return Err(s);
        },
    };
    assert(x as u64 * size as u64 <= 4 * 0xffff_ffffu64) by (nonlinear_arith)
        requires
            size <= 4,
    ;
    let step = x as u64 * size as u64;
    if step > usize::MAX as u64 || row_start > usize::MAX - step as usize {
        return Err("KWin screenshot pixel offset overflowed".to_owned());
    }
    let offset = row_start + step as usize;
    if offset > pixels.len() || pixels.len() - offset < size {
        return Err("KWin screenshot ended inside a pixel".to_owned());
    }
    Ok([pixels[offset + red], pixels[offset + green], pixels[offset + blue]])
}

/// The header of a binary PPM image of `width` by `height` pixels with
/// 8-bit channels.
pub open spec fn ppm_header_text(width: u32, height: u32) -> Seq<char> {
    "P6\n"@ + decimal(width as nat) + " "@ + decimal(height as nat) + "\n255\n"@
}

/// The PPM header for a `width` by `height` image.
pub fn ppm_header(width: u32, height: u32) -> (s: String)
    ensures
        s@ == ppm_header_text(width, height),
{
    let mut s = String::new();
    push_text(&mut s, "P6\n");
    push_decimal(&mut s, width as u64);
    push_text(&mut s, " ");
    push_decimal(&mut s, height as u64);
    push_text(&mut s, "\n255\n");
    s
}

/// The RGB bytes of the first `k` pixels of a row, or the first error.
pub open spec fn row_prefix(pixels: Seq<u8>, row_start: int, k: nat, format: u32) -> Result<
    Seq<u8>,
    Seq<char>,
>
    decreases k,
{
    if k == 0 {
        Ok(Seq::empty())
    } else {
        match row_prefix(pixels, row_start, (k - 1) as nat, format) {
            Err(e) => Err(e),
            Ok(done) => match pixel_rgb(pixels, row_start, (k - 1) as u32, format) {
                Err(e) => Err(e),
                Ok(rgb) => Ok(done + rgb),
            },
        }
    }
}

/// Row `y` of the image as RGB bytes: the row starts `y * stride` bytes
/// into the pixel data and holds `width` pixels.
pub open spec fn ppm_row_bytes(pixels: Seq<u8>, y: u32, width: u32, stride: u32, format: u32) -> Result<
    Seq<u8>,
    Seq<char>,
> {
    if y * stride > usize::MAX {
        Err("KWin screenshot row offset overflowed"@)
    } else {
        row_prefix(pixels, y * stride, width as nat, format)
    }
}

proof fn lemma_row_error_stays(pixels: Seq<u8>, row_start: int, k: nat, n: nat, format: u32)
    requires
        k <= n,
        row_prefix(pixels, row_start, k, format) is Err,
    ensures
        row_prefix(pixels, row_start, n, format) == row_prefix(pixels, row_start, k, format),
    decreases n - k,
{
    if k < n {
        lemma_row_error_stays(pixels, row_start, k, (n - 1) as nat, format);
    }
}

/// Convert row `y` of a screenshot to the RGB bytes of a PPM image.
pub fn ppm_row(pixels: &[u8], y: u32, width: u32, stride: u32, format: u32) -> (r: Result<
    Vec<u8>,
    String,
>)
    ensures
        match ppm_row_bytes(pixels@, y, width, stride, format) {
            Ok(b) => r matches Ok(v) && v@ == b,
            Err(m) => r matches Err(s) && s@ == m,
        },
{
    assert(y as u64 * stride as u64 <= 0xffff_ffffu64 * 0xffff_ffffu64) by (nonlinear_arith);
    let start = y as u64 * stride as u64;
    if start > usize::MAX as u64 {
        return Err("KWin screenshot row offset overflowed".to_owned());
    }
    let row_start = start as usize;
    let mut out: Vec<u8> = Vec::new();
    let mut x: u32 = 0;
    while x < width
        invariant
            x <= width,
            row_start == y * stride,
            row_prefix(pixels@, row_start as int, x as nat, format) == Ok::<Seq<u8>, Seq<char>>(
                out@,
            ),
        decreases width - x,
    {
        match rgb_pixel(pixels, row_start, x, format) {
            Ok(rgb) => {
                out.push(rgb[0]);
                out.push(rgb[1]);
                out.push(rgb[2]);
                assert(out@ =~= row_prefix(pixels@, row_start as int, x as nat, format)->Ok_0
                    + rgb@);
            },
            Err(e) => {
                proof {
                    lemma_row_error_stays(
                        pixels@,
                        row_start as int,
                        (x + 1) as nat,
                        width as nat,
                        format,
                    );
                }
                return Err(e);
            },
        }
        x = x + 1;
    }
    Ok(out)
}

} // verus!
