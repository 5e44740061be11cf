//! The pixel work behind rendering PNG images and cape textures: choosing how to resize,
//! turning RGBA pixels into BGRA, and the canvas a cape texture is normalised to.
use vstd::prelude::*;

verus! {

/// How an image is transformed before it is shown.
#[derive(Debug, Clone, Copy, Hash, PartialEq, Eq, Structural)]
pub enum ImageTransformation {
    Unchanged,
    Resize { width: u32, height: u32 },
    ResizeToWidth { width: u32 },
}

/// The filter an image is resized with.
#[derive(Debug, Clone, Copy, PartialEq, Eq, Structural)]
pub enum ResizeFilter {
    /// Smooth, for shrinking.
    Triangle,
    /// Blocky, for enlarging pixel art.
    Nearest,
}

/// The filter for resizing from one size to another: none where the size is unchanged,
/// smooth where either side shrinks, blocky otherwise.
pub open spec fn filter_for(old_width: u32, old_height: u32, width: u32, height: u32) -> Option<
    ResizeFilter,
> {
    if old_width == width && old_height == height {
        None
    } else if old_width > width || old_height > height {
        Some(ResizeFilter::Triangle)
    } else {
        Some(ResizeFilter::Nearest)
    }
}

/// Chooses how to resize an image of one size to another.
pub fn resize_filter(old_width: u32, old_height: u32, width: u32, height: u32) -> (r: Option<
    ResizeFilter,
>)
    ensures
        r == filter_for(old_width, old_height, width, height),
{
    if old_width == width && old_height == height {
        None
    } else if old_width > width || old_height > height {
        Some(ResizeFilter::Triangle)
    } else {
        Some(ResizeFilter::Nearest)
    }
}

/// The byte at `i` once the first and third byte of every whole group of four are
/// swapped; the bytes of an incomplete last group stay where they are.
pub open spec fn bgra_byte(data: Seq<u8>, i: int) -> u8 {
    let whole = data.len() - data.len() % 4;
    if i < whole && i % 4 == 0 {
        data[i + 2]
    } else if i < whole && i % 4 == 2 {
        data[i - 2]
    } else {
        data[i]
    }
}

/// The bytes with the first and third byte of every whole group of four swapped.
pub open spec fn swapped_red_blue(data: Seq<u8>) -> Seq<u8> {
    Seq::new(data.len(), |i: int| bgra_byte(data, i))
}

/// Swapping twice gives the bytes back: BGRA turns into RGBA the same way.
pub proof fn law_swap_red_blue_twice(data: Seq<u8>)
    ensures
        swapped_red_blue(swapped_red_blue(data)) == data,
{
    let once = swapped_red_blue(data);
    assert(swapped_red_blue(once) =~= data);
}

/// Turns RGBA pixels into BGRA ones, in place.
pub fn swap_red_blue(data: &mut Vec<u8>)
    ensures
        final(data)@ == swapped_red_blue(old(data)@),
{
    let ghost before = data@;
    let n = data.len();
    let whole = n - n % 4;
    let mut p: usize = 0;
    while p < whole
        invariant
            data@.len() == before.len(),
            n == before.len(),
            whole == n - n % 4,
            p % 4 == 0,
            p <= whole,
            forall|i: int| 0 <= i < p ==> #[trigger] data@[i] == bgra_byte(before, i),
            forall|i: int| p <= i < n ==> #[trigger] data@[i] == before[i],
        decreases whole - p,
    {
        let red = data[p];
        let blue = data[p + 2];
        data.set(p, blue);
        data.set(p + 2, red);
        p += 4;
    }
    assert(data@ =~= swapped_red_blue(before));
}


/// The canvas a cape is grown to by doubling from `width` by `height` until the source
/// fits in both directions.
pub open spec fn doubled_canvas(width: nat, height: nat, src_w: nat, src_h: nat) -> (nat, nat)
    decreases
            (if width < src_w { src_w - width } else { 0int }) + (if height < src_h {
                src_h - height
            } else {
                0int
            }),
{
    if width == 0 || height == 0 || (width >= src_w && height >= src_h) {
        (width, height)
    } else {
        doubled_canvas(2 * width, 2 * height, src_w, src_h)
    }
}

/// The canvas size a cape texture of `src_w` by `src_h` pixels is normalised to: a
/// texture laid out in 46:22 units keeps its scale on a 64:32 canvas; any other is
/// placed on a 64 by 32 canvas, doubled until it fits.
pub open spec fn cape_canvas(src_w: nat, src_h: nat) -> (nat, nat) {
    let ratio = src_w / 46;
    if src_w % 46 == 0 && ratio > 0 && src_h == 22 * ratio {
        (64 * ratio, 32 * ratio)
    } else {
        doubled_canvas(64, 32, src_w, src_h)
    }
}

/// The canvas size for a cape texture of `src_w` by `src_h` pixels (the source is
/// then pasted at its top left corner). The bounds keep the canvas within `u32`.
pub fn cape_canvas_size(src_w: u32, src_h: u32) -> (r: (u32, u32))
    requires
        src_w <= 0x8000_0000,
        src_h <= 0x4000_0000,
    ensures
        (r.0 as nat, r.1 as nat) == cape_canvas(src_w as nat, src_h as nat),
{
    if src_w % 46 == 0 {
        let ratio = src_w / 46;
        if ratio > 0 && src_h == 22 * ratio {
            return (64 * ratio, 32 * ratio);
        }
    }
    let mut width: u32 = 64;
    let mut height: u32 = 32;
    while width < src_w || height < src_h
        invariant
            src_w <= 0x8000_0000,
            src_h <= 0x4000_0000,
            height >= 32,
            width == 2 * height,
            doubled_canvas(width as nat, height as nat, src_w as nat, src_h as nat)
                == doubled_canvas(64, 32, src_w as nat, src_h as nat),
        decreases
            (if width < src_w { src_w - width } else { 0int }) + (if height < src_h {
                src_h - height
            } else {
                0int
            }),
    {
        width = width * 2;
        height = height * 2;
    }
    (width, height)
}

} // verus!
