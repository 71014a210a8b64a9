//! The arithmetic behind the pixel-display backends: locating a pixel in a
//! frame buffer, packing a color into the panel's native bit layout, and
//! committing the packed bytes. A write outside the panel's addressable
//! area is reported to the caller instead of ending the process.

use vstd::prelude::*;

verus! {

/// The byte offset of pixel `(x, y)` in a frame with the given row stride
/// and pixel width.
pub open spec fn spec_pixel_index(x: int, y: int, line_length: int, bytes_per_pixel: int) -> int {
    y * line_length + x * bytes_per_pixel
}

/// One 8-bit channel shifted down to the panel's channel width and placed
/// at the channel's bit offset.
pub open spec fn spec_pack_channel(value: u8, length: u32, offset: u32) -> u64
    recommends
        length <= 8,
        offset < 64,
{
    ((value as u64) >> ((8 - length) as u64)) << (offset as u64)
}

/// The three channels of a color packed into one native pixel value.
pub open spec fn spec_pack_color(
    red: u8,
    green: u8,
    blue: u8,
    red_length: u32,
    red_offset: u32,
    green_length: u32,
    green_offset: u32,
    blue_length: u32,
    blue_offset: u32,
) -> u64 {
    spec_pack_channel(red, red_length, red_offset) | spec_pack_channel(
        green,
        green_length,
        green_offset,
    ) | spec_pack_channel(blue, blue_length, blue_offset)
}

/// Byte `i` of a packed pixel, least significant byte first.
pub open spec fn spec_pixel_byte(pixel: u64, i: int) -> u8
    recommends
        0 <= i < 8,
{
    ((pixel >> ((8 * i) as u64)) & 0xff) as u8
}

/// The byte offset of pixel `(x, y)`, or `None` when the coordinates lie
/// outside the panel: an out-of-range write is an error the caller sees,
/// never an abort. The frame must cover the panel.
pub fn locate_pixel(
    x: usize,
    y: usize,
    width: usize,
    height: usize,
    line_length: usize,
    bytes_per_pixel: usize,
    frame_len: usize,
) -> (r: Option<usize>)
    requires
        width * bytes_per_pixel <= line_length,
        height * line_length <= frame_len,
    ensures
        r is Some <==> x < width && y < height,
        r is Some ==> r->0 == spec_pixel_index(
            x as int,
            y as int,
            line_length as int,
            bytes_per_pixel as int,
        ) && r->0 + bytes_per_pixel <= frame_len,
{
    if x < width && y < height {
        proof {
            assert((y + 1) * line_length <= height * line_length && (x + 1) * bytes_per_pixel
                <= width * bytes_per_pixel && (y + 1) * line_length == y * line_length
                + line_length && (x + 1) * bytes_per_pixel == x * bytes_per_pixel
                + bytes_per_pixel) by (nonlinear_arith)
                requires
                    x < width,
                    y < height,
            ;
        }
        Some(y * line_length + x * bytes_per_pixel)
    } else {
        None
    }
}

/// Pack a red/green/blue triple into the panel's native pixel layout:
/// each 8-bit channel is shifted right to the channel's bit length and
/// placed at the channel's bit offset.
pub fn pack_color(
    red: u8,
    green: u8,
    blue: u8,
    red_length: u32,
    red_offset: u32,
    green_length: u32,
    green_offset: u32,
    blue_length: u32,
    blue_offset: u32,
) -> (r: u64)
    requires
        red_length <= 8,
        green_length <= 8,
        blue_length <= 8,
        red_offset < 64,
        green_offset < 64,
        blue_offset < 64,
    ensures
        r == spec_pack_color(
            red,
            green,
            blue,
            red_length,
            red_offset,
            green_length,
            green_offset,
            blue_length,
            blue_offset,
        ),
{
    let r = ((red as u64) >> ((8 - red_length) as u64)) << (red_offset as u64);
    let g = ((green as u64) >> ((8 - green_length) as u64)) << (green_offset as u64);
    let b = ((blue as u64) >> ((8 - blue_length) as u64)) << (blue_offset as u64);
    r | g | b
}

/// Write the `bytes_per_pixel` bytes of a packed pixel into the frame at
/// `index`, least significant byte first; nothing else in the frame moves.
pub fn write_packed_pixel(frame: &mut Vec<u8>, index: usize, bytes_per_pixel: usize, pixel: u64)
    requires
        bytes_per_pixel <= 8,
        index + bytes_per_pixel <= old(frame)@.len(),
    ensures
        final(frame)@.len() == old(frame)@.len(),
        forall|j: int|
            0 <= j < old(frame)@.len() && !(index <= j < index + bytes_per_pixel)
                ==> final(frame)@[j] == old(frame)@[j],
        forall|k: int|
            0 <= k < bytes_per_pixel ==> final(frame)@[index + k] == spec_pixel_byte(pixel, k),
{
    let mut k: usize = 0;
    let _frame_len = frame.len();
    while k < bytes_per_pixel
        invariant
            bytes_per_pixel <= 8,
            k <= bytes_per_pixel,
            frame@.len() <= usize::MAX,
            index + bytes_per_pixel <= frame@.len(),
            frame@.len() == old(frame)@.len(),
            forall|j: int|
                0 <= j < old(frame)@.len() && !(index <= j < index + bytes_per_pixel) ==> frame@[j]
                    == old(frame)@[j],
            forall|t: int| 0 <= t < k ==> frame@[index + t] == spec_pixel_byte(pixel, t),
        decreases bytes_per_pixel - k,
    {
        let shift: u64 = 8 * (k as u64);
        let part = ((pixel >> shift) & 0xff) as u8;
        frame.set(index + k, part);
        k = k + 1;
    }
}

} // verus!
