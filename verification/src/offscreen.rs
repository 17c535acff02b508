//! Pixel bookkeeping of offscreen renders: row alignment of read-back
//! buffers, unpacking of padded rows, and coverage counting against the
//! gradient backdrop.
use vstd::prelude::*;
use crate::error::CadError;

verus! {

/// Tightly packed RGBA8 pixels from an offscreen render.
#[derive(Debug, Clone, PartialEq, Eq)]
pub struct RenderImage {
    pub width: u32,
    pub height: u32,
    pub rgba: Vec<u8>,
    pub non_background_pixels: usize,
}

/// Summary of an offscreen render pass.
#[derive(Debug, Clone, Copy, PartialEq, Eq, Structural)]
pub struct RenderOutput {
    pub width: u32,
    pub height: u32,
    pub non_background_pixels: usize,
}

impl From<RenderImage> for RenderOutput {
    fn from(image: RenderImage) -> (r: RenderOutput) {
        RenderOutput {
            width: image.width,
            height: image.height,
            non_background_pixels: image.non_background_pixels,
        }
    }
}

impl vstd::std_specs::convert::FromSpecImpl<RenderImage> for RenderOutput {
    open spec fn obeys_from_spec() -> bool {
        true
    }

    open spec fn from_spec(image: RenderImage) -> RenderOutput {
        RenderOutput {
            width: image.width,
            height: image.height,
            non_background_pixels: image.non_background_pixels,
        }
    }
}

/// Metadata from a completed animation export.
#[derive(Debug, Clone, Copy, PartialEq, Eq, Structural)]
pub struct AnimationSummary {
    /// Encoded width in pixels.
    pub width_px: u32,
    /// Encoded height in pixels.
    pub height_px: u32,
    /// Encoded frame count.
    pub frame_count: u32,
    /// Requested playback rate in frames per second.
    pub frames_per_second: u32,
}

/// The smallest multiple of `alignment` that is at least `value`.
pub open spec fn aligned(value: int, alignment: int) -> int {
    ((value + alignment - 1) / alignment) * alignment
}

/// Round `value` up to a multiple of `alignment`.
pub fn align_to(value: u32, alignment: u32) -> (r: u32)
    requires
        alignment > 0,
        aligned(value as int, alignment as int) <= u32::MAX,
    ensures
        r == aligned(value as int, alignment as int),
        r % alignment == 0,
        value <= r < value + alignment,
{
    let q: u32 = value / alignment;
    let rem: u32 = value % alignment;
    proof {
        let a = alignment as int;
        let v = value as int;
        assert(v == a * q + rem) by (nonlinear_arith)
            requires
                a > 0,
                q == v / a,
                rem == v % a,
        ;
        assert(rem != 0 ==> q < u32::MAX) by (nonlinear_arith)
            requires
                v == a * q + rem,
                0 <= rem < a,
                v <= u32::MAX,
                q >= 0,
        ;
    }
    let blocks: u32 = if rem == 0 { q } else { q + 1 };
    proof {
        let a = alignment as int;
        let v = value as int;
        assert((v + a - 1) / a == blocks) by (nonlinear_arith)
            requires
                a > 0,
                v == a * q + rem,
                0 <= rem < a,
                blocks == (if rem == 0 { q as int } else { q + 1 }),
        ;
        assert(blocks * a <= u32::MAX);
        assert((blocks * a) % a == 0) by (nonlinear_arith)
            requires
                a > 0,
        ;
        assert(v <= blocks * a < v + a) by (nonlinear_arith)
            requires
                a > 0,
                v == a * q + rem,
                0 <= rem < a,
                blocks == (if rem == 0 { q as int } else { q + 1 }),
        ;
    }
    blocks * alignment
}

/// The `4 * width` pixel bytes of row `y` of a read-back buffer whose rows
/// are `bytes_per_row` apart.
pub open spec fn row_bytes(data: Seq<u8>, y: int, width: int, bytes_per_row: int) -> Seq<u8> {
    Seq::new((4 * width) as nat, |i: int| data[y * bytes_per_row + i])
}

/// The first `height` rows of the buffer, each without its padding, one
/// after the other.
pub open spec fn unpacked(data: Seq<u8>, width: int, height: int, bytes_per_row: int) -> Seq<u8>
    decreases height,
{
    if height <= 0 {
        Seq::empty()
    } else {
        unpacked(data, width, height - 1, bytes_per_row) + row_bytes(
            data,
            height - 1,
            width,
            bytes_per_row,
        )
    }
}

/// Every row that is read lies inside the buffer, and the image size and
/// row offsets, computed in `u32`, fit in it.
pub open spec fn readable(data_len: int, width: u32, height: u32, bytes_per_row: u32) -> bool {
    &&& width * height * 4 <= u32::MAX
    &&& (height > 0 && width > 0) ==> (height - 1) * bytes_per_row <= u32::MAX && (height - 1)
        * bytes_per_row + 4 * width <= data_len
}

proof fn lemma_row_in_bounds(data_len: int, width: u32, height: u32, bytes_per_row: u32, y: int)
    requires
        readable(data_len, width, height, bytes_per_row),
        0 <= y < height,
        width > 0,
    ensures
        y * bytes_per_row <= (height - 1) * bytes_per_row,
        y * bytes_per_row + 4 * width <= data_len,
        (y + 1) * bytes_per_row == y * bytes_per_row + bytes_per_row,
        4 * width <= u32::MAX,
{
    let b = bytes_per_row as int;
    let h = height as int;
    assert(y * b <= (h - 1) * b) by (nonlinear_arith)
        requires
            0 <= y <= h - 1,
            b >= 0,
    ;
    assert((y + 1) * b == y * b + b) by (nonlinear_arith);
    assert(4 * width <= width * height * 4) by (nonlinear_arith)
        requires
            height >= 1,
    ;
}

/// Copy the pixel bytes out of a read-back buffer whose rows are padded to
/// `bytes_per_row`.
pub fn unpack_rgba(data: &[u8], width: u32, height: u32, bytes_per_row: u32) -> (rgba: Vec<u8>)
    requires
        readable(data@.len() as int, width, height, bytes_per_row),
    ensures
        rgba@ == unpacked(data@, width as int, height as int, bytes_per_row as int),
{
    let mut rgba: Vec<u8> = Vec::new();
    let n = data.len();
    if width == 0 {
        proof {
            lemma_unpacked_empty_rows(data@, height as int, bytes_per_row as int);
        }
        return rgba;
    }
    let mut y: u32 = 0;
    while y < height
        invariant
            width > 0,
            y <= height,
            readable(data@.len() as int, width, height, bytes_per_row),
            data@.len() == n,
            rgba@ == unpacked(data@, width as int, y as int, bytes_per_row as int),
        decreases height - y,
    {
        proof {
            lemma_row_in_bounds(data@.len() as int, width, height, bytes_per_row, y as int);
        }
        let row_start: u32 = y * bytes_per_row;
        let ghost start = row_start as int;
        let mut x: u32 = 0;
        while x < width
            invariant
                width > 0,
                x <= width,
                y < height,
                start == y * bytes_per_row,
                row_start == start,
                start + 4 * width <= data@.len(),
                4 * width <= u32::MAX,
                data@.len() == n,
                rgba@ == unpacked(data@, width as int, y as int, bytes_per_row as int)
                    + data@.subrange(start, start + 4 * x),
            decreases width - x,
        {
            let offset: usize = row_start as usize + (x * 4) as usize;
            rgba.push(data[offset]);
            rgba.push(data[offset + 1]);
            rgba.push(data[offset + 2]);
            rgba.push(data[offset + 3]);
            assert(data@.subrange(start, start + 4 * (x + 1)) =~= data@.subrange(start, start + 4 * x)
                + seq![data@[offset as int], data@[offset + 1], data@[offset + 2], data@[offset + 3]]);
            x = x + 1;
        }
        assert(data@.subrange(start, start + 4 * width) =~= row_bytes(
            data@,
            y as int,
            width as int,
            bytes_per_row as int,
        ));
        assert(rgba@ =~= unpacked(data@, width as int, y + 1, bytes_per_row as int));
        y = y + 1;
    }
    rgba
}

proof fn lemma_unpacked_empty_rows(data: Seq<u8>, height: int, bytes_per_row: int)
    ensures
        unpacked(data, 0, height, bytes_per_row) == Seq::<u8>::empty(),
    decreases height,
{
    if height > 0 {
        lemma_unpacked_empty_rows(data, height - 1, bytes_per_row);
        assert(row_bytes(data, height - 1, 0, bytes_per_row) =~= Seq::<u8>::empty());
    }
}

/// How far a channel may stray from the backdrop and still count as
/// backdrop.
pub const BACKGROUND_TOLERANCE: u8 = 14;

/// The channel value is farther than the tolerance from the backdrop's.
pub open spec fn channel_differs(p: u8, b: u8) -> bool {
    p - b > BACKGROUND_TOLERANCE || b - p > BACKGROUND_TOLERANCE
}

/// The pixel at `offset` differs from the backdrop color in some channel.
pub open spec fn pixel_differs(data: Seq<u8>, offset: int, bg: [u8; 3]) -> bool {
    channel_differs(data[offset], bg[0]) || channel_differs(data[offset + 1], bg[1])
        || channel_differs(data[offset + 2], bg[2])
}

/// Differing pixels among the first `x` pixels of the row starting at
/// `start`.
pub open spec fn row_count(data: Seq<u8>, start: int, bg: [u8; 3], x: int) -> nat
    decreases x,
{
    if x <= 0 {
        0
    } else {
        row_count(data, start, bg, x - 1) + if pixel_differs(data, start + 4 * (x - 1), bg) {
            1nat
        } else {
            0nat
        }
    }
}

/// Differing pixels in the first `height` rows, row `y` compared with the
/// backdrop color `backgrounds[y]`.
pub open spec fn coverage(
    data: Seq<u8>,
    width: int,
    height: int,
    bytes_per_row: int,
    backgrounds: Seq<[u8; 3]>,
) -> nat
    decreases height,
{
    if height <= 0 {
        0
    } else {
        coverage(data, width, height - 1, bytes_per_row, backgrounds) + row_count(
            data,
            (height - 1) * bytes_per_row,
            backgrounds[height - 1],
            width,
        )
    }
}

fn channel_far(p: u8, b: u8) -> (r: bool)
    ensures
        r == channel_differs(p, b),
{
    if p > b {
        p - b > BACKGROUND_TOLERANCE
    } else {
        b - p > BACKGROUND_TOLERANCE
    }
}

/// Count pixels that differ from the gradient backdrop, i.e. covered by the
/// model or its overlays; `backgrounds[y]` is the backdrop color of row `y`.
pub fn count_non_background_pixels(
    data: &[u8],
    width: u32,
    height: u32,
    bytes_per_row: u32,
    backgrounds: &[[u8; 3]],
) -> (count: usize)
    requires
        readable(data@.len() as int, width, height, bytes_per_row),
        backgrounds@.len() == height,
    ensures
        count == coverage(data@, width as int, height as int, bytes_per_row as int, backgrounds@),
{
    let mut count: usize = 0;
    let n = data.len();
    if width == 0 {
        proof {
            lemma_coverage_no_columns(data@, height as int, bytes_per_row as int, backgrounds@);
        }
        return 0;
    }
    let mut y: u32 = 0;
    while y < height
        invariant
            width > 0,
            y <= height,
            backgrounds@.len() == height,
            readable(data@.len() as int, width, height, bytes_per_row),
            data@.len() == n,
            count == coverage(data@, width as int, y as int, bytes_per_row as int, backgrounds@),
            count <= y * width,
        decreases height - y,
    {
        proof {
            lemma_row_in_bounds(data@.len() as int, width, height, bytes_per_row, y as int);
            assert((y + 1) * width == y * width + width) by (nonlinear_arith);
            assert((y + 1) * width <= width * height) by (nonlinear_arith)
                requires
                    y + 1 <= height,
            ;
        }
        let bg = backgrounds[y as usize];
        let row_start: u32 = y * bytes_per_row;
        let ghost start = row_start as int;
        let ghost base = count as int;
        let mut x: u32 = 0;
        while x < width
            invariant
                width > 0,
                x <= width,
                y < height,
                start == y * bytes_per_row,
                row_start == start,
                start + 4 * width <= data@.len(),
                4 * width <= u32::MAX,
                (y + 1) * width <= width * height,
                (y + 1) * width == y * width + width,
                width * height * 4 <= u32::MAX,
                base <= y * width,
                data@.len() == n,
                count == base + row_count(data@, start, bg, x as int),
                count <= base + x,
            decreases width - x,
        {
            let offset: usize = row_start as usize + (x * 4) as usize;
            if channel_far(data[offset], bg[0]) || channel_far(data[offset + 1], bg[1])
                || channel_far(data[offset + 2], bg[2]) {
                count = count + 1;
            }
            x = x + 1;
        }
        y = y + 1;
    }
    count
}

proof fn lemma_coverage_no_columns(
    data: Seq<u8>,
    height: int,
    bytes_per_row: int,
    backgrounds: Seq<[u8; 3]>,
)
    ensures
        coverage(data, 0, height, bytes_per_row, backgrounds) == 0,
    decreases height,
{
    if height > 0 {
        lemma_coverage_no_columns(data, height - 1, bytes_per_row, backgrounds);
    }
}

/// Unpacked pixels are tightly packed: four bytes for each of the
/// `width * height` pixels.
pub proof fn law_unpacked_is_tightly_packed(data: Seq<u8>, width: nat, height: nat, bytes_per_row: int)
    ensures
        unpacked(data, width as int, height as int, bytes_per_row).len() == 4 * width * height,
    decreases height,
{
    if height > 0 {
        let h1 = (height - 1) as nat;
        law_unpacked_is_tightly_packed(data, width, h1, bytes_per_row);
        assert(h1 as int == height - 1);
        assert(unpacked(data, width as int, height - 1, bytes_per_row).len() == 4 * width * h1);
        assert(unpacked(data, width as int, height as int, bytes_per_row) == unpacked(
            data,
            width as int,
            height - 1,
            bytes_per_row,
        ) + row_bytes(data, height - 1, width as int, bytes_per_row));
        assert(row_bytes(data, height - 1, width as int, bytes_per_row).len() == 4 * width);
        assert(4 * width * height == 4 * width * h1 + 4 * width) by (nonlinear_arith)
            requires
                h1 + 1 == height,
        ;
    } else {
        assert(4 * width * height == 0) by (nonlinear_arith)
            requires
                height == 0,
        ;
    }
}

/// What the frame settings of an orbit animation are refused for, if
/// anything: the pixel size first, then the frame count and rate.
pub open spec fn frame_settings_problem(
    width_px: u32,
    height_px: u32,
    frame_count: u32,
    frames_per_second: u32,
) -> Option<Seq<char>> {
    if width_px == 0 || height_px == 0 {
        Some("animation dimensions must be positive pixels"@)
    } else if frame_count < 2 || frames_per_second == 0 {
        Some("animation requires at least 2 frames and a positive frame rate"@)
    } else {
        None
    }
}

/// Check the integer settings of an orbit animation: positive pixel
/// dimensions, at least two frames and a positive frame rate.
pub fn validate_frame_settings(
    width_px: u32,
    height_px: u32,
    frame_count: u32,
    frames_per_second: u32,
) -> (r: Result<(), CadError>)
    ensures
        match frame_settings_problem(width_px, height_px, frame_count, frames_per_second) {
            None => r is Ok,
            Some(m) => r matches Err(CadError::Validation(e)) && e@ == m,
        },
{
    if width_px == 0 || height_px == 0 {
        return Err(CadError::Validation("animation dimensions must be positive pixels".to_owned()));
    }
    if frame_count < 2 || frames_per_second == 0 {
        return Err(
            CadError::Validation(
                "animation requires at least 2 frames and a positive frame rate".to_owned(),
            ),
        );
    }
    Ok(())
}

/// A zero-based frame index must name one of the frames.
pub fn check_frame_index(frame_index: u32, frame_count: u32) -> (r: Result<(), CadError>)
    ensures
        frame_index < frame_count ==> r is Ok,
        frame_index >= frame_count ==> (r matches Err(CadError::Validation(e)) && e@
            == "animation frame index is out of range"@),
{
    if frame_index >= frame_count {
        return Err(CadError::Validation("animation frame index is out of range".to_owned()));
    }
    Ok(())
}

} // verus!
