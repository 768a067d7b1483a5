//! Pixels: rectangles, outlines and icons on a canvas of blue, green, red and alpha bytes.

use vstd::arithmetic::div_mod::lemma_fundamental_div_mod_converse;
use vstd::prelude::*;
use crate::arith::{add_i32, max_i32, max_u32, min_u32, mul_i32, mul_u32, saturate_i64, sub_i32};
use crate::arith::{max_of, min_of, saturate_i32, saturate_u32};
use crate::model::Rect;

verus! {

/// A colour with its opacity.
#[derive(Debug, Clone, Copy, PartialEq, Eq, Structural)]
pub struct Color {
    pub red: u8,
    pub green: u8,
    pub blue: u8,
    pub alpha: u8,
}

/// A decoded image, four bytes per pixel: red, green, blue and alpha.
#[derive(Debug, Clone, PartialEq, Eq)]
pub struct AppIcon {
    pub width: u32,
    pub height: u32,
    pub rgba: Vec<u8>,
}

/// `size` with neither side zero.
pub fn nonzero_size(size: (u32, u32)) -> (nonzero: (u32, u32))
    ensures
        nonzero.0 == max_of(size.0 as int, 1),
        nonzero.1 == max_of(size.1 as int, 1),
{
    (max_u32(size.0, 1), max_u32(size.1, 1))
}

/// `length` in physical pixels at `scale` 120ths, rounded half up and never zero.
pub open spec fn physical(length: u32, scale: u32) -> int {
    max_of(saturate_u32(saturate_u32(length * scale) + 60) / 120, 1)
}

/// One side of a buffer in physical pixels.
fn physical_length(length: u32, scale_120: u32) -> (pixels: u32)
    ensures
        pixels == physical(length, scale_120),
{
    max_u32(mul_u32(length, scale_120).saturating_add(60) / 120, 1)
}

/// The size in physical pixels of a buffer of `logical` size.
pub fn physical_size(logical: (u32, u32), scale_120: u32) -> (size: (u32, u32))
    ensures
        size.0 == physical(logical.0, scale_120),
        size.1 == physical(logical.1, scale_120),
{
    (physical_length(logical.0, scale_120), physical_length(logical.1, scale_120))
}

/// `value / divisor` towards zero, for a positive divisor.
pub open spec fn toward_zero(value: int, divisor: int) -> int {
    if value < 0 {
        -((-value) / divisor)
    } else {
        value / divisor
    }
}

/// The coordinate `value` in physical pixels.
pub open spec fn scaled(value: int, scale: u32) -> int {
    saturate_i32(toward_zero(value * scale + 60, 120))
}

/// `value` in physical pixels.
pub fn scale_coord(value: i32, scale_120: u32) -> (pixels: i32)
    ensures
        pixels == scaled(value as int, scale_120),
{
    assert(-0x8000_0000_0000_0000 + 0x8000_0000 <= value * scale_120 <= 0x7fff_ffff_0000_0000)
        by (nonlinear_arith)
        requires
            -0x8000_0000 <= value <= 0x7fff_ffff,
            0 <= scale_120 <= 0xffff_ffff,
    ;
    let wide: i64 = value as i64 * scale_120 as i64 + 60;
    let quotient: i64 = wide / 120;
    saturate_i64(quotient)
}

/// `rect` in physical pixels: its corners are scaled, so that touching rectangles still touch.
pub open spec fn scaled_rect(rect: Rect, scale: u32) -> Rect {
    let left = scaled(rect.x as int, scale);
    let top = scaled(rect.y as int, scale);
    Rect {
        x: left as i32,
        y: top as i32,
        width: saturate_i32(scaled(saturate_i32(rect.x + rect.width), scale) - left) as i32,
        height: saturate_i32(scaled(saturate_i32(rect.y + rect.height), scale) - top) as i32,
    }
}

/// `rect` in physical pixels.
pub fn scale_rect(rect: Rect, scale_120: u32) -> (pixels: Rect)
    ensures
        pixels == scaled_rect(rect, scale_120),
{
    let left: i32 = scale_coord(rect.x, scale_120);
    let top: i32 = scale_coord(rect.y, scale_120);
    let right: i32 = scale_coord(add_i32(rect.x, rect.width), scale_120);
    let bottom: i32 = scale_coord(add_i32(rect.y, rect.height), scale_120);
    Rect { x: left, y: top, width: sub_i32(right, left), height: sub_i32(bottom, top) }
}

/// Scaling keeps the order of coordinates.
pub proof fn scaling_keeps_order(left: int, right: int, scale: u32)
    requires
        left <= right,
    ensures
        scaled(left, scale) <= scaled(right, scale),
{
    assert(left * scale <= right * scale) by (nonlinear_arith)
        requires
            left <= right,
            0 <= scale,
    ;
}

/// Two rectangles that share an edge share it after scaling too, where the width can be held.
pub proof fn scaling_keeps_neighbours(left: Rect, right: Rect, scale: u32)
    requires
        left.x + left.width == right.x,
        i32::MIN <= scaled(right.x as int, scale) - scaled(left.x as int, scale) <= i32::MAX,
    ensures
        scaled_rect(left, scale).x + scaled_rect(left, scale).width == scaled_rect(right, scale).x,
{
}

/// `rect` without a border of `amount` on each side.
pub open spec fn inset_rect(rect: Rect, amount: int) -> Rect {
    Rect {
        x: saturate_i32(rect.x + amount) as i32,
        y: saturate_i32(rect.y + amount) as i32,
        width: saturate_i32(rect.width - saturate_i32(amount * 2)) as i32,
        height: saturate_i32(rect.height - saturate_i32(amount * 2)) as i32,
    }
}

/// `rect` without a border of `amount` on each side.
pub fn inset(rect: Rect, amount: i32) -> (inner: Rect)
    ensures
        inner == inset_rect(rect, amount as int),
{
    Rect {
        x: add_i32(rect.x, amount),
        y: add_i32(rect.y, amount),
        width: sub_i32(rect.width, mul_i32(amount, 2)),
        height: sub_i32(rect.height, mul_i32(amount, 2)),
    }
}

/// The byte of `color` at `channel` of a pixel.
pub open spec fn channel_of(color: Color, channel: int) -> u8 {
    if channel == 0 {
        color.blue
    } else if channel == 1 {
        color.green
    } else if channel == 2 {
        color.red
    } else {
        color.alpha
    }
}

/// A canvas whose every complete pixel is `color`.
pub open spec fn cleared(canvas: Seq<u8>, color: Color) -> Seq<u8> {
    Seq::new(
        canvas.len(),
        |at: int|
            if at / 4 * 4 + 4 <= canvas.len() {
                channel_of(color, at % 4)
            } else {
                canvas[at]
            },
    )
}

/// Writes `color` to the pixel whose first byte is at `start`.
fn write_pixel(canvas: &mut Vec<u8>, start: usize, color: Color)
    requires
        start + 4 <= old(canvas)@.len(),
    ensures
        final(canvas)@.len() == old(canvas)@.len(),
        forall|at: int|
            0 <= at < old(canvas)@.len() ==> #[trigger] final(canvas)@[at] == (if start <= at < start
                + 4 {
                channel_of(color, at - start)
            } else {
                old(canvas)@[at]
            }),
{
    let length: usize = canvas.len();
    assert(start + 4 <= length);
    canvas[start] = color.blue;
    canvas[start + 1] = color.green;
    canvas[start + 2] = color.red;
    canvas[start + 3] = color.alpha;
}

/// Makes every complete pixel of `canvas` `color`.
pub fn clear(canvas: &mut Vec<u8>, color: Color)
    ensures
        final(canvas)@ == cleared(old(canvas)@, color),
{
    let length: usize = canvas.len();
    let mut start: usize = 0;
    while length - start >= 4
        invariant
            start <= length,
            start % 4 == 0,
            canvas@.len() == length,
            old(canvas)@.len() == length,
            forall|at: int|
                0 <= at < length ==> #[trigger] canvas@[at] == (if at < start {
                    channel_of(color, at % 4)
                } else {
                    old(canvas)@[at]
                }),
        decreases length - start,
    {
        write_pixel(canvas, start, color);
        start = start + 4;
    }
    assert(canvas@ =~= cleared(old(canvas)@, color));
}

/// Whether `value` lies in `start..start + length`, with the end saturated and clipped below at zero.
pub open spec fn spans(start: i32, length: i32, value: int) -> bool {
    max_of(start as int, 0) <= value < max_of(saturate_i32(start + length), 0)
}

/// Whether `rect` covers the pixel at (`x`, `y`).
pub open spec fn covers(rect: Rect, x: int, y: int) -> bool {
    spans(rect.x, rect.width, x) && spans(rect.y, rect.height, y)
}

/// A canvas of `width` by `height` pixels with `rect` painted over it.
pub open spec fn filled(
    canvas: Seq<u8>,
    width: u32,
    height: u32,
    rect: Rect,
    color: Color,
) -> Seq<u8> {
    Seq::new(
        canvas.len(),
        |at: int|
            {
                let pixel = at / 4;
                if width > 0 && pixel / (width as int) < height && covers(
                    rect,
                    pixel % (width as int),
                    pixel / (width as int),
                ) && pixel * 4 + 4 <= canvas.len() {
                    channel_of(color, at % 4)
                } else {
                    canvas[at]
                }
            },
    )
}

/// The place of a pixel in its canvas says which row and column it is in.
proof fn pixel_place(width: int, x: int, y: int)
    requires
        0 <= x < width,
        0 <= y,
    ensures
        (y * width + x) / width == y,
        (y * width + x) % width == x,
        0 <= y * width + x,
{
    lemma_fundamental_div_mod_converse(y * width + x, width, y, x);
    assert(0 <= y * width) by (nonlinear_arith)
        requires
            0 <= y,
            0 < width,
    ;
}

/// Paints `rect` over `canvas`, as far as it lies on it.
pub fn fill_rect(canvas: &mut Vec<u8>, width: u32, height: u32, rect: Rect, color: Color)
    ensures
        final(canvas)@ == filled(old(canvas)@, width, height, rect, color),
{
    let left: u32 = min_u32(max_i32(rect.x, 0) as u32, width);
    let top: u32 = min_u32(max_i32(rect.y, 0) as u32, height);
    let right: u32 = min_u32(max_i32(add_i32(rect.x, rect.width), 0) as u32, width);
    let bottom: u32 = min_u32(max_i32(add_i32(rect.y, rect.height), 0) as u32, height);
    let ghost before = canvas@;
    let mut y: u32 = top;
    while y < bottom
        invariant
            top <= y,
            y <= bottom || y == top,
            bottom <= height,
            right <= width,
            left == min_of(max_of(rect.x as int, 0), width as int),
            right == min_of(max_of(saturate_i32(rect.x + rect.width), 0), width as int),
            top == min_of(max_of(rect.y as int, 0), height as int),
            bottom == min_of(max_of(saturate_i32(rect.y + rect.height), 0), height as int),
            canvas@.len() == before.len(),
            forall|at: int|
                #![trigger canvas@[at]]
                0 <= at < before.len() ==> canvas@[at] == painted(
                    before,
                    width as int,
                    (left as int, right as int),
                    (top as int, y as int),
                    color,
                    at,
                ),
        decreases bottom - y,
    {
        let mut x: u32 = left;
        let ghost row = canvas@;
        while x < right
            invariant
                left <= x,
                x <= right || x == left,
                right <= width,
                top <= y < bottom,
                canvas@.len() == before.len(),
                row.len() == before.len(),
                forall|at: int|
                    #![trigger row[at]]
                    0 <= at < before.len() ==> row[at] == painted(
                        before,
                        width as int,
                        (left as int, right as int),
                        (top as int, y as int),
                        color,
                        at,
                    ),
                forall|at: int|
                    #![trigger canvas@[at]]
                    0 <= at < before.len() ==> canvas@[at] == (if at / 4 / (width as int) == y
                        && left <= at / 4 % (width as int) < x && at / 4 * 4 + 4 <= before.len() {
                        channel_of(color, at % 4)
                    } else {
                        row[at]
                    }),
            decreases right - x,
        {
            proof {
                pixel_place(width as int, x as int, y as int);
                assert(y * width <= 0xffff_ffff * 0xffff_ffff) by (nonlinear_arith)
                    requires
                        0 <= y <= 0xffff_ffff,
                        0 <= width <= 0xffff_ffff,
                ;
            }
            let pixel: u64 = y as u64 * width as u64 + x as u64;
            let length: u64 = canvas.len() as u64;
            let ghost previous = canvas@;
            if pixel < length / 4 {
                let start: usize = (pixel * 4) as usize;
                write_pixel(canvas, start, color);
                assert forall|at: int| #![trigger canvas@[at]] 0 <= at < before.len() implies canvas@[at]
                    == (if at / 4 / (width as int) == y && left <= at / 4 % (width as int) < x + 1
                    && at / 4 * 4 + 4 <= before.len() {
                    channel_of(color, at % 4)
                } else {
                    row[at]
                }) by {
                    assert(previous[at] == previous[at]);
                    if at / 4 == pixel {
                        assert(start <= at < start + 4);
                    } else {
                        assert(!(start <= at < start + 4));
                        if at / 4 / (width as int) == y && at / 4 % (width as int) == x {
                            pixel_split(at / 4, width as int);
                        }
                    }
                }
            } else {
                assert forall|at: int| #![trigger canvas@[at]] 0 <= at < before.len() implies canvas@[at]
                    == (if at / 4 / (width as int) == y && left <= at / 4 % (width as int) < x + 1
                    && at / 4 * 4 + 4 <= before.len() {
                    channel_of(color, at % 4)
                } else {
                    row[at]
                }) by {
                    if at / 4 / (width as int) == y && at / 4 % (width as int) == x {
                        pixel_split(at / 4, width as int);
                    }
                }
            }
            x = x + 1;
        }
        assert forall|at: int| #![trigger canvas@[at]] 0 <= at < before.len() implies canvas@[at]
            == painted(
            before,
            width as int,
            (left as int, right as int),
            (top as int, y + 1),
            color,
            at,
        ) by {
            assert(row[at] == row[at]);
        }
        y = y + 1;
    }
    assert forall|at: int| 0 <= at < before.len() implies canvas@[at] == filled(
        before,
        width,
        height,
        rect,
        color,
    )[at] by {
        if width > 0 {
            pixel_split(at / 4, width as int);
        }
    }
    assert(canvas@ =~= filled(before, width, height, rect, color));
}

/// The byte at `at` of a canvas of which the columns and rows given are painted.
spec fn painted(
    canvas: Seq<u8>,
    width: int,
    columns: (int, int),
    rows: (int, int),
    color: Color,
    at: int,
) -> u8 {
    let pixel = at / 4;
    if columns.0 <= pixel % width < columns.1 && rows.0 <= pixel / width < rows.1 && pixel * 4 + 4
        <= canvas.len() && width > 0 {
        channel_of(color, at % 4)
    } else {
        canvas[at]
    }
}

/// A pixel is where its row and column say.
proof fn pixel_split(pixel: int, width: int)
    requires
        0 < width,
        0 <= pixel,
    ensures
        pixel == pixel / width * width + pixel % width,
        0 <= pixel % width < width,
        0 <= pixel / width,
{
    vstd::arithmetic::div_mod::lemma_fundamental_div_mod(pixel, width);
    vstd::arithmetic::mul::lemma_mul_is_commutative(pixel / width, width);
    vstd::arithmetic::div_mod::lemma_div_pos_is_pos(pixel, width);
}

/// A canvas with the outline of `rect` drawn over it, `thickness` pixels wide inside the rectangle.
pub open spec fn outlined(
    canvas: Seq<u8>,
    width: u32,
    height: u32,
    rect: Rect,
    thickness: i32,
    color: Color,
) -> Seq<u8> {
    let line = max_of(thickness as int, 1);
    let top = Rect { height: line as i32, ..rect };
    let bottom = Rect {
        y: saturate_i32(saturate_i32(rect.y + rect.height) - line) as i32,
        height: line as i32,
        ..rect
    };
    let left = Rect { width: line as i32, ..rect };
    let right = Rect {
        x: saturate_i32(saturate_i32(rect.x + rect.width) - line) as i32,
        width: line as i32,
        ..rect
    };
    filled(
        filled(
            filled(filled(canvas, width, height, top, color), width, height, bottom, color),
            width,
            height,
            left,
            color,
        ),
        width,
        height,
        right,
        color,
    )
}

/// Draws the outline of `rect` over `canvas`.
pub fn draw_outline(
    canvas: &mut Vec<u8>,
    width: u32,
    height: u32,
    rect: Rect,
    thickness: i32,
    color: Color,
)
    ensures
        final(canvas)@ == outlined(old(canvas)@, width, height, rect, thickness, color),
{
    let line: i32 = max_i32(thickness, 1);
    fill_rect(
        canvas,
        width,
        height,
        Rect { x: rect.x, y: rect.y, width: rect.width, height: line },
        color,
    );
    fill_rect(
        canvas,
        width,
        height,
        Rect {
            x: rect.x,
            y: sub_i32(add_i32(rect.y, rect.height), line),
            width: rect.width,
            height: line,
        },
        color,
    );
    fill_rect(
        canvas,
        width,
        height,
        Rect { x: rect.x, y: rect.y, width: line, height: rect.height },
        color,
    );
    fill_rect(
        canvas,
        width,
        height,
        Rect {
            x: sub_i32(add_i32(rect.x, rect.width), line),
            y: rect.y,
            width: line,
            height: rect.height,
        },
        color,
    );
}

/// A byte of a pixel with `color` laid over it at the opacity `alpha`.
pub open spec fn blended_byte(byte: u8, color: Color, alpha: u8, channel: int) -> u8 {
    if channel == 3 {
        255
    } else {
        ((channel_of(color, channel) * alpha + byte * (255 - alpha)) / 255) as u8
    }
}

/// Whether (`x`, `y`) is a pixel of a canvas of `width` by `height`.
pub open spec fn on_canvas(width: u32, height: u32, x: int, y: int) -> bool {
    0 <= x < width && 0 <= y < height && width <= i32::MAX && height <= i32::MAX
}

/// The colour `color` laid over one pixel of a canvas.
pub open spec fn blended(
    canvas: Seq<u8>,
    width: u32,
    height: u32,
    x: int,
    y: int,
    color: Color,
    alpha: u8,
) -> Seq<u8> {
    Seq::new(
        canvas.len(),
        |at: int|
            if on_canvas(width, height, x, y) && at / 4 == y * width + x && at / 4 * 4 + 4
                <= canvas.len() {
                blended_byte(canvas[at], color, alpha, at % 4)
            } else {
                canvas[at]
            },
    )
}

/// `source` over `byte` at the opacity `alpha`.
fn mix(byte: u8, source: u8, alpha: u8) -> (mixed: u8)
    ensures
        mixed == ((source * alpha + byte * (255 - alpha)) / 255) as u8,
        (source * alpha + byte * (255 - alpha)) / 255 <= 255,
{
    assert(source * alpha + byte * (255 - alpha) <= 255 * 255) by (nonlinear_arith)
        requires
            0 <= source <= 255,
            0 <= byte <= 255,
            0 <= alpha <= 255,
    ;
    assert(0 <= source * alpha <= 255 * 255 && 0 <= byte * (255 - alpha)) by (nonlinear_arith)
        requires
            0 <= source <= 255,
            0 <= byte <= 255,
            0 <= alpha <= 255,
    ;
    let sum: u32 = source as u32 * alpha as u32 + byte as u32 * (255 - alpha as u32);
    (sum / 255) as u8
}

/// Lays `color` over the pixel at (`x`, `y`), where that is on the canvas.
pub fn blend_pixel(
    canvas: &mut Vec<u8>,
    width: u32,
    height: u32,
    x: i32,
    y: i32,
    color: Color,
    alpha: u8,
)
    ensures
        final(canvas)@ == blended(old(canvas)@, width, height, x as int, y as int, color, alpha),
{
    let ghost before = canvas@;
    if x < 0 || y < 0 || width > i32::MAX as u32 || height > i32::MAX as u32 || x >= width as i32
        || y >= height as i32 {
        assert(canvas@ =~= blended(before, width, height, x as int, y as int, color, alpha));
        return ;
    }
    assert(0 <= y * width <= 0x7fff_ffff * 0x7fff_ffff) by (nonlinear_arith)
        requires
            0 <= y <= 0x7fff_ffff,
            0 <= width <= 0x7fff_ffff,
    ;
    let pixel: u64 = y as u64 * width as u64 + x as u64;
    let length: usize = canvas.len();
    if pixel < length as u64 / 4 {
        let start: usize = (pixel * 4) as usize;
        canvas[start] = mix(canvas[start], color.blue, alpha);
        canvas[start + 1] = mix(canvas[start + 1], color.green, alpha);
        canvas[start + 2] = mix(canvas[start + 2], color.red, alpha);
        canvas[start + 3] = 255;
    }
    assert(canvas@ =~= blended(before, width, height, x as int, y as int, color, alpha));
}

/// The pixel of an icon of `size` pixels that is drawn at `at` of `length`.
pub open spec fn sampled(at: int, size: u32, length: int) -> int {
    min_of(saturate_u32(at * size) / length, size - 1)
}

/// The first byte in `icon` of the pixel drawn at (`x`, `y`) of `rect`.
pub open spec fn sample_start(icon: AppIcon, rect: Rect, x: int, y: int) -> int {
    (sampled(y, icon.height, rect.height as int) * icon.width + sampled(
        x,
        icon.width,
        rect.width as int,
    )) * 4
}

/// A byte of a canvas with `icon` drawn into `rect`.
pub open spec fn icon_byte(
    canvas: Seq<u8>,
    width: u32,
    height: u32,
    rect: Rect,
    icon: AppIcon,
    at: int,
) -> u8 {
    let pixel = at / 4;
    let x = pixel % (width as int) - rect.x;
    let y = pixel / (width as int) - rect.y;
    let start = sample_start(icon, rect, x, y);
    if 0 <= x < rect.width && 0 <= y < rect.height && on_canvas(
        width,
        height,
        pixel % (width as int),
        pixel / (width as int),
    ) && pixel * 4 + 4 <= canvas.len() && start + 4 <= icon.rgba@.len() {
        blended_byte(
            canvas[at],
            (Color {
                red: icon.rgba@[start],
                green: icon.rgba@[start + 1],
                blue: icon.rgba@[start + 2],
                alpha: icon.rgba@[start + 3],
            }),
            icon.rgba@[start + 3],
            at % 4,
        )
    } else {
        canvas[at]
    }
}

/// A canvas with `icon` drawn into `rect`.
pub open spec fn with_icon(
    canvas: Seq<u8>,
    width: u32,
    height: u32,
    rect: Rect,
    icon: AppIcon,
) -> Seq<u8> {
    if rect.width <= 0 || rect.height <= 0 || icon.width == 0 || icon.height == 0 || width == 0 {
        canvas
    } else {
        Seq::new(canvas.len(), |at: int| icon_byte(canvas, width, height, rect, icon, at))
    }
}

/// The pixel of an icon that is drawn at `at` of `length`.
fn sample(at: u32, size: u32, length: u32) -> (pixel: u32)
    requires
        size > 0,
        length > 0,
    ensures
        pixel == sampled(at as int, size, length as int),
        pixel < size,
{
    min_u32(mul_u32(at, size) / length, size - 1)
}

/// Draws `icon` into `rect`, taking for each pixel the nearest one of the icon.
pub fn draw_app_icon(
    canvas: &mut Vec<u8>,
    canvas_width: u32,
    canvas_height: u32,
    rect: Rect,
    icon: &AppIcon,
)
    requires
        rect.x + rect.width <= i32::MAX,
        rect.y + rect.height <= i32::MAX,
    ensures
        final(canvas)@ == with_icon(old(canvas)@, canvas_width, canvas_height, rect, *icon),
{
    if rect.width <= 0 || rect.height <= 0 || icon.width == 0 || icon.height == 0 || canvas_width
        == 0 {
        return ;
    }
    let ghost before = canvas@;
    let mut y: i32 = 0;
    while y < rect.height
        invariant
            0 <= y <= rect.height,
            0 < rect.width,
            rect.x + rect.width <= i32::MAX,
            rect.y + rect.height <= i32::MAX,
            icon.width > 0,
            icon.height > 0,
            canvas_width > 0,
            canvas@.len() == before.len(),
            forall|at: int|
                #![trigger canvas@[at]]
                0 <= at < before.len() ==> canvas@[at] == (if at / 4 / (canvas_width as int)
                    - rect.y < y {
                    icon_byte(before, canvas_width, canvas_height, rect, *icon, at)
                } else {
                    before[at]
                }),
        decreases rect.height - y,
    {
        let source_y: u32 = sample(y as u32, icon.height, rect.height as u32);
        let mut x: i32 = 0;
        let ghost row = canvas@;
        while x < rect.width
            invariant
                0 <= x <= rect.width,
                0 <= y < rect.height,
                rect.x + rect.width <= i32::MAX,
                rect.y + rect.height <= i32::MAX,
                icon.width > 0,
                canvas_width > 0,
                source_y == sampled(y as int, icon.height, rect.height as int),
                source_y < icon.height,
                row.len() == before.len(),
                canvas@.len() == before.len(),
                forall|at: int|
                    #![trigger row[at]]
                    0 <= at < before.len() ==> row[at] == (if at / 4 / (canvas_width as int)
                        - rect.y < y {
                        icon_byte(before, canvas_width, canvas_height, rect, *icon, at)
                    } else {
                        before[at]
                    }),
                forall|at: int|
                    #![trigger canvas@[at]]
                    0 <= at < before.len() ==> canvas@[at] == (if at / 4 / (canvas_width as int)
                        - rect.y == y && at / 4 % (canvas_width as int) - rect.x < x {
                        icon_byte(before, canvas_width, canvas_height, rect, *icon, at)
                    } else {
                        row[at]
                    }),
            decreases rect.width - x,
        {
            let source_x: u32 = sample(x as u32, icon.width, rect.width as u32);
            assert(0 <= source_y * icon.width <= 0xffff_ffff * 0xffff_ffff) by (nonlinear_arith)
                requires
                    0 <= source_y <= 0xffff_ffff,
                    0 <= icon.width <= 0xffff_ffff,
            ;
            let pixel: u64 = source_y as u64 * icon.width as u64 + source_x as u64;
            let length: usize = icon.rgba.len();
            let ghost previous = canvas@;
            if pixel < length as u64 / 4 {
                let start: usize = (pixel * 4) as usize;
                assert(start == sample_start(*icon, rect, x as int, y as int));
                let color = Color {
                    red: icon.rgba[start],
                    green: icon.rgba[start + 1],
                    blue: icon.rgba[start + 2],
                    alpha: icon.rgba[start + 3],
                };
                blend_pixel(
                    canvas,
                    canvas_width,
                    canvas_height,
                    rect.x + x,
                    rect.y + y,
                    color,
                    color.alpha,
                );
            } else {
                assert(pixel * 4 == sample_start(*icon, rect, x as int, y as int));
            }
            assert forall|at: int|
                #![trigger canvas@[at]]
                0 <= at < before.len() implies canvas@[at] == (if at / 4 / (canvas_width as int)
                - rect.y == y && at / 4 % (canvas_width as int) - rect.x < x + 1 {
                icon_byte(before, canvas_width, canvas_height, rect, *icon, at)
            } else {
                row[at]
            }) by {
                pixel_split(at / 4, canvas_width as int);
                assert(previous[at] == previous[at]);
                assert(row[at] == row[at]);
                if on_canvas(canvas_width, canvas_height, rect.x + x, rect.y + y) {
                    pixel_place(canvas_width as int, rect.x + x, rect.y + y);
                }
            }
            x = x + 1;
        }
        assert forall|at: int|
            #![trigger canvas@[at]]
            0 <= at < before.len() implies canvas@[at] == (if at / 4 / (canvas_width as int)
            - rect.y < y + 1 {
            icon_byte(before, canvas_width, canvas_height, rect, *icon, at)
        } else {
            before[at]
        }) by {
            assert(row[at] == row[at]);
        }
        y = y + 1;
    }
    assert(canvas@ =~= with_icon(before, canvas_width, canvas_height, rect, *icon));
}

/// The picture of a character: one byte for the opacity of each pixel.
#[derive(Debug)]
pub struct Glyph {
    pub width: u32,
    pub height: u32,
    pub bitmap: Vec<u8>,
}

/// A byte of a canvas with a character drawn at (`left`, `top`).
pub open spec fn glyph_byte(
    canvas: Seq<u8>,
    width: u32,
    height: u32,
    place: (i32, i32),
    glyph: Glyph,
    color: Color,
    at: int,
) -> u8 {
    let pixel = at / 4;
    let x = pixel % (width as int) - place.0;
    let y = pixel / (width as int) - place.1;
    let start = y * glyph.width + x;
    if 0 <= x < glyph.width && 0 <= y < glyph.height && on_canvas(
        width,
        height,
        pixel % (width as int),
        pixel / (width as int),
    ) && pixel * 4 + 4 <= canvas.len() && glyph.bitmap@[start] != 0 {
        blended_byte(canvas[at], color, glyph.bitmap@[start], at % 4)
    } else {
        canvas[at]
    }
}

/// A canvas with a character drawn at (`left`, `top`).
pub open spec fn with_glyph(
    canvas: Seq<u8>,
    width: u32,
    height: u32,
    place: (i32, i32),
    glyph: Glyph,
    color: Color,
) -> Seq<u8> {
    if width == 0 {
        canvas
    } else {
        Seq::new(canvas.len(), |at: int| glyph_byte(canvas, width, height, place, glyph, color, at))
    }
}

/// Draws a character with its upper left corner at `place`.
pub fn draw_glyph(
    canvas: &mut Vec<u8>,
    canvas_width: u32,
    canvas_height: u32,
    place: (i32, i32),
    glyph: &Glyph,
    color: Color,
)
    requires
        glyph.bitmap@.len() == glyph.width * glyph.height,
        place.0 + glyph.width <= i32::MAX,
        place.1 + glyph.height <= i32::MAX,
        glyph.width <= i32::MAX,
        glyph.height <= i32::MAX,
    ensures
        final(canvas)@ == with_glyph(
            old(canvas)@,
            canvas_width,
            canvas_height,
            place,
            *glyph,
            color,
        ),
{
    if canvas_width == 0 {
        return ;
    }
    let ghost before = canvas@;
    let mut y: u32 = 0;
    while y < glyph.height
        invariant
            0 <= y <= glyph.height,
            glyph.bitmap@.len() == glyph.width * glyph.height,
            place.0 + glyph.width <= i32::MAX,
            place.1 + glyph.height <= i32::MAX,
            glyph.width <= i32::MAX,
            glyph.height <= i32::MAX,
            canvas_width > 0,
            canvas@.len() == before.len(),
            forall|at: int|
                #![trigger canvas@[at]]
                0 <= at < before.len() ==> canvas@[at] == (if at / 4 / (canvas_width as int)
                    - place.1 < y {
                    glyph_byte(before, canvas_width, canvas_height, place, *glyph, color, at)
                } else {
                    before[at]
                }),
        decreases glyph.height - y,
    {
        let mut x: u32 = 0;
        let ghost row = canvas@;
        while x < glyph.width
            invariant
                0 <= x <= glyph.width,
                0 <= y < glyph.height,
                glyph.bitmap@.len() == glyph.width * glyph.height,
                place.0 + glyph.width <= i32::MAX,
                place.1 + glyph.height <= i32::MAX,
                glyph.width <= i32::MAX,
                glyph.height <= i32::MAX,
                canvas_width > 0,
                row.len() == before.len(),
                canvas@.len() == before.len(),
                forall|at: int|
                    #![trigger row[at]]
                    0 <= at < before.len() ==> row[at] == (if at / 4 / (canvas_width as int)
                        - place.1 < y {
                        glyph_byte(before, canvas_width, canvas_height, place, *glyph, color, at)
                    } else {
                        before[at]
                    }),
                forall|at: int|
                    #![trigger canvas@[at]]
                    0 <= at < before.len() ==> canvas@[at] == (if at / 4 / (canvas_width as int)
                        - place.1 == y && at / 4 % (canvas_width as int) - place.0 < x {
                        glyph_byte(before, canvas_width, canvas_height, place, *glyph, color, at)
                    } else {
                        row[at]
                    }),
            decreases glyph.width - x,
        {
            assert(0 <= y * glyph.width && y * glyph.width + x < glyph.width * glyph.height)
                by (nonlinear_arith)
                requires
                    0 <= y < glyph.height,
                    0 <= x < glyph.width,
            ;
            let ghost start = y * glyph.width + x;
            let length: usize = glyph.bitmap.len();
            let alpha: u8 = glyph.bitmap[y as usize * glyph.width as usize + x as usize];
            let ghost previous = canvas@;
            if alpha != 0 {
                blend_pixel(
                    canvas,
                    canvas_width,
                    canvas_height,
                    place.0 + x as i32,
                    place.1 + y as i32,
                    color,
                    alpha,
                );
            }
            assert forall|at: int|
                #![trigger canvas@[at]]
                0 <= at < before.len() implies canvas@[at] == (if at / 4 / (canvas_width as int)
                - place.1 == y && at / 4 % (canvas_width as int) - place.0 < x + 1 {
                glyph_byte(before, canvas_width, canvas_height, place, *glyph, color, at)
            } else {
                row[at]
            }) by {
                pixel_split(at / 4, canvas_width as int);
                assert(previous[at] == previous[at]);
                assert(row[at] == row[at]);
                if on_canvas(canvas_width, canvas_height, place.0 + x, place.1 + y) {
                    pixel_place(canvas_width as int, place.0 + x, place.1 + y);
                }
            }
            x = x + 1;
        }
        assert forall|at: int|
            #![trigger canvas@[at]]
            0 <= at < before.len() implies canvas@[at] == (if at / 4 / (canvas_width as int)
            - place.1 < y + 1 {
            glyph_byte(before, canvas_width, canvas_height, place, *glyph, color, at)
        } else {
            before[at]
        }) by {
            assert(row[at] == row[at]);
        }
        y = y + 1;
    }
    assert(canvas@ =~= with_glyph(before, canvas_width, canvas_height, place, *glyph, color));
}

/// `part` copied into `whole` from `start` on.
pub open spec fn spliced(whole: Seq<u8>, start: int, part: Seq<u8>) -> Seq<u8> {
    whole.take(start) + part + whole.skip(start + part.len())
}

/// The first `rows` rows of `content` copied into `surface`, each where both hold it whole.
pub open spec fn composed(
    surface: Seq<u8>,
    stride: nat,
    content: Seq<u8>,
    row_bytes: nat,
    left: nat,
    top: nat,
    rows: nat,
) -> Seq<u8>
    decreases rows,
{
    if rows == 0 {
        surface
    } else {
        let row = (rows - 1) as nat;
        let above = composed(surface, stride, content, row_bytes, left, top, row);
        let source = row * row_bytes;
        let target = (top + row) * stride + left * 4;
        if source + row_bytes <= content.len() && target + row_bytes <= surface.len() {
            spliced(above, target as int, content.subrange(source as int, (source + row_bytes) as int))
        } else {
            above
        }
    }
}

/// Composing keeps the size of the surface.
proof fn composed_keeps_size(
    surface: Seq<u8>,
    stride: nat,
    content: Seq<u8>,
    row_bytes: nat,
    left: nat,
    top: nat,
    rows: nat,
)
    ensures
        composed(surface, stride, content, row_bytes, left, top, rows).len() == surface.len(),
    decreases rows,
{
    if rows > 0 {
        composed_keeps_size(
            surface,
            stride,
            content,
            row_bytes,
            left,
            top,
            (rows - 1) as nat,
        );
    }
}

/// Copies `content`, an image of `width` by `height`, onto `surface`, an image of
/// `surface_width`, with its corner at (`left`, `top`).
pub fn compose(
    surface: &mut Vec<u8>,
    surface_width: u32,
    content: &Vec<u8>,
    width: u32,
    height: u32,
    left: u32,
    top: u32,
)
    ensures
        final(surface)@ == composed(
            old(surface)@,
            surface_width as nat * 4,
            content@,
            width as nat * 4,
            left as nat,
            top as nat,
            height as nat,
        ),
{
    let row_bytes: u128 = width as u128 * 4;
    let stride: u128 = surface_width as u128 * 4;
    let content_length: u128 = content.len() as u128;
    let surface_length: u128 = surface.len() as u128;
    let ghost before = surface@;
    let mut row: u32 = 0;
    while row < height
        invariant
            row <= height,
            row_bytes == width as nat * 4,
            stride == surface_width as nat * 4,
            content_length == content@.len(),
            content_length <= usize::MAX,
            surface_length == before.len(),
            surface_length <= usize::MAX,
            surface@.len() == before.len(),
            surface@ == composed(
                before,
                stride as nat,
                content@,
                row_bytes as nat,
                left as nat,
                top as nat,
                row as nat,
            ),
        decreases height - row,
    {
        assert(row * row_bytes <= 0xffff_ffff * 0x4_0000_0000) by (nonlinear_arith)
            requires
                0 <= row <= 0xffff_ffff,
                0 <= row_bytes <= 0x4_0000_0000,
        ;
        assert((top + row) * stride <= 0x1_ffff_ffff * 0x4_0000_0000) by (nonlinear_arith)
            requires
                0 <= top + row <= 0x1_ffff_ffff,
                0 <= stride <= 0x4_0000_0000,
        ;
        let source: u128 = row as u128 * row_bytes;
        let target: u128 = (top as u128 + row as u128) * stride + left as u128 * 4;
        if source + row_bytes <= content_length && target + row_bytes <= surface_length {
            copy_run(surface, target as usize, content, source as usize, row_bytes as usize);
        }
        proof {
            reveal_with_fuel(composed, 2);
            composed_keeps_size(
                before,
                stride as nat,
                content@,
                row_bytes as nat,
                left as nat,
                top as nat,
                (row + 1) as nat,
            );
        }
        row = row + 1;
    }
}

/// Copies `length` bytes of `content` from `source` on into `surface` from `target` on.
fn copy_run(surface: &mut Vec<u8>, target: usize, content: &Vec<u8>, source: usize, length: usize)
    requires
        target + length <= old(surface)@.len(),
        source + length <= content@.len(),
    ensures
        final(surface)@ == spliced(
            old(surface)@,
            target as int,
            content@.subrange(source as int, source + length),
        ),
{
    let ghost before = surface@;
    let whole: usize = surface.len();
    let available: usize = content.len();
    let mut at: usize = 0;
    while at < length
        invariant
            at <= length,
            target + length <= whole,
            source + length <= available,
            available == content@.len(),
            whole == before.len(),
            surface@.len() == before.len(),
            forall|index: int|
                #![trigger surface@[index]]
                0 <= index < before.len() ==> surface@[index] == (if target <= index < target + at {
                    content@[source + (index - target)]
                } else {
                    before[index]
                }),
        decreases length - at,
    {
        surface[target + at] = content[source + at];
        at = at + 1;
    }
    assert(surface@ =~= spliced(
        before,
        target as int,
        content@.subrange(source as int, source + length),
    ));
}

/// A length is rounded to the nearest number of pixels and never vanishes; at the whole scale it
/// stays as it is.
pub proof fn lengths_are_rounded(length: u32, scale: u32)
    requires
        length * scale + 60 <= u32::MAX,
    ensures
        physical(length, scale) >= 1,
        length * scale >= 60 ==> -60 <= length * scale - 120 * physical(length, scale) < 60,
        length * scale < 60 ==> physical(length, scale) == 1,
        scale == 120 && length > 0 ==> physical(length, scale) == length,
{
}

/// A coordinate is rounded to the nearest pixel.
pub proof fn coordinates_are_rounded(value: int, scale: u32)
    requires
        0 <= value,
        value * scale + 60 <= 120 * i32::MAX,
    ensures
        -60 <= value * scale - 120 * scaled(value, scale) < 60,
        scale == 120 ==> scaled(value, scale) == value,
{
    assert(value * scale >= 0) by (nonlinear_arith)
        requires
            value >= 0,
            scale >= 0,
    ;
}

/// A rectangle without its border leaves the same margin on each side.
pub proof fn borders_are_even(rect: Rect, amount: i32, x: int, y: int)
    requires
        0 <= amount <= 0x10_0000,
        0 <= rect.x <= 0x1000_0000,
        0 <= rect.y <= 0x1000_0000,
        0 <= rect.width <= 0x1000_0000,
        0 <= rect.height <= 0x1000_0000,
    ensures
        covers(inset_rect(rect, amount as int), x, y) <==> {
            &&& rect.x + amount <= x < rect.x + rect.width - amount
            &&& rect.y + amount <= y < rect.y + rect.height - amount
        },
{
}

/// Where a byte of a pixel stands in a canvas.
proof fn byte_place(width: u32, height: u32, x: int, y: int, channel: int)
    requires
        0 <= x < width,
        0 <= y < height,
        0 <= channel < 4,
    ensures
        ({
            let at = (y * width + x) * 4 + channel;
            &&& at / 4 == y * width + x
            &&& at % 4 == channel
            &&& (at / 4) % (width as int) == x
            &&& (at / 4) / (width as int) == y
            &&& 0 <= at
            &&& at / 4 * 4 + 4 <= width * height * 4
        }),
{
    pixel_place(width as int, x, y);
    assert(y * width + x + 1 <= width * height) by (nonlinear_arith)
        requires
            0 <= x < width,
            0 <= y < height,
    ;
}

/// A pixel of a filled rectangle has its colour, and every other pixel keeps its own.
pub proof fn filling_paints_the_rectangle(
    canvas: Seq<u8>,
    size: (u32, u32),
    rect: Rect,
    color: Color,
    x: int,
    y: int,
    channel: int,
)
    requires
        canvas.len() == size.0 * size.1 * 4,
        size.0 <= i32::MAX,
        size.1 <= i32::MAX,
        0 <= x < size.0,
        0 <= y < size.1,
        0 <= channel < 4,
    ensures
        ({
            let at = (y * size.0 + x) * 4 + channel;
            let byte = filled(canvas, size.0, size.1, rect, color)[at];
            let inside = rect.x <= x < rect.x + rect.width && rect.y <= y < rect.y + rect.height;
            &&& 0 <= at < canvas.len()
            &&& inside && channel == 0 ==> byte == color.blue
            &&& inside && channel == 1 ==> byte == color.green
            &&& inside && channel == 2 ==> byte == color.red
            &&& inside && channel == 3 ==> byte == color.alpha
            &&& !inside ==> byte == canvas[at]
            &&& filled(canvas, size.0, size.1, rect, color).len() == canvas.len()
        }),
{
    byte_place(size.0, size.1, x, y, channel);
}

/// Clearing a canvas paints every pixel of it.
pub proof fn clearing_paints_everything(canvas: Seq<u8>, color: Color, pixel: int)
    requires
        0 <= pixel,
        4 * pixel + 4 <= canvas.len(),
    ensures
        cleared(canvas, color).len() == canvas.len(),
        cleared(canvas, color)[4 * pixel] == color.blue,
        cleared(canvas, color)[4 * pixel + 1] == color.green,
        cleared(canvas, color)[4 * pixel + 2] == color.red,
        cleared(canvas, color)[4 * pixel + 3] == color.alpha,
{
}

/// An outline paints what is inside its rectangle and nearer to an edge than it is thick, and leaves
/// everything else.
pub proof fn outlines_follow_the_edges(
    canvas: Seq<u8>,
    size: (u32, u32),
    rect: Rect,
    thickness: i32,
    color: Color,
    x: int,
    y: int,
    channel: int,
)
    requires
        canvas.len() == size.0 * size.1 * 4,
        size.0 <= i32::MAX,
        size.1 <= i32::MAX,
        0 <= x < size.0,
        0 <= y < size.1,
        0 <= channel < 4,
        1 <= thickness <= rect.width,
        thickness <= rect.height,
        rect.x + rect.width <= i32::MAX,
        rect.y + rect.height <= i32::MAX,
    ensures
        ({
            let at = (y * size.0 + x) * 4 + channel;
            let byte = outlined(canvas, size.0, size.1, rect, thickness, color)[at];
            let inside = rect.x <= x < rect.x + rect.width && rect.y <= y < rect.y + rect.height;
            let near = x < rect.x + thickness || x >= rect.x + rect.width - thickness || y < rect.y
                + thickness || y >= rect.y + rect.height - thickness;
            &&& inside && near ==> byte == channel_of(color, channel)
            &&& !(inside && near) ==> byte == canvas[at]
        }),
{
    let line = thickness;
    let top = Rect { height: line, ..rect };
    let bottom = Rect { y: (rect.y + rect.height - line) as i32, height: line, ..rect };
    let left = Rect { width: line, ..rect };
    let right = Rect { x: (rect.x + rect.width - line) as i32, width: line, ..rect };
    let one = filled(canvas, size.0, size.1, top, color);
    let two = filled(one, size.0, size.1, bottom, color);
    let three = filled(two, size.0, size.1, left, color);
    filling_paints_the_rectangle(canvas, size, top, color, x, y, channel);
    filling_paints_the_rectangle(one, size, bottom, color, x, y, channel);
    filling_paints_the_rectangle(two, size, left, color, x, y, channel);
    filling_paints_the_rectangle(three, size, right, color, x, y, channel);
}

/// A colour laid over a byte at full opacity replaces it, at none leaves it, and otherwise gives
/// something between the two; a pixel that is drawn on is opaque.
pub proof fn blending_mixes_colours(byte: u8, color: Color, alpha: u8, channel: int)
    requires
        0 <= channel < 3,
    ensures
        blended_byte(byte, color, 255, channel) == channel_of(color, channel),
        blended_byte(byte, color, 0, channel) == byte,
        min_of(byte as int, channel_of(color, channel) as int) <= blended_byte(
            byte,
            color,
            alpha,
            channel,
        ) <= max_of(byte as int, channel_of(color, channel) as int),
        blended_byte(byte, color, alpha, 3) == 255,
{
    let source = channel_of(color, channel);
    let low = min_of(byte as int, source as int);
    let high = max_of(byte as int, source as int);
    assert(source * 255u8 + byte * (255 - 255u8) == 255 * source) by (nonlinear_arith);
    assert(source * 0u8 + byte * (255 - 0u8) == 255 * byte) by (nonlinear_arith);
    assert(255 * low <= source * alpha + byte * (255 - alpha) <= 255 * high) by (nonlinear_arith)
        requires
            0 <= alpha <= 255,
            low <= source <= high,
            low <= byte <= high,
    ;
}

/// Blending a pixel changes that pixel alone.
pub proof fn blending_changes_one_pixel(
    canvas: Seq<u8>,
    size: (u32, u32),
    x: int,
    y: int,
    color: Color,
    alpha: u8,
    at: int,
)
    requires
        canvas.len() == size.0 * size.1 * 4,
        0 <= at < canvas.len(),
    ensures
        ({
            let after = blended(canvas, size.0, size.1, x, y, color, alpha);
            &&& after.len() == canvas.len()
            &&& at / 4 != y * size.0 + x ==> after[at] == canvas[at]
            &&& !(0 <= x < size.0 && 0 <= y < size.1) ==> after == canvas
            &&& 0 <= x < size.0 <= i32::MAX && 0 <= y < size.1 <= i32::MAX && at / 4 == y * size.0
                + x ==> after[at] == blended_byte(canvas[at], color, alpha, at % 4)
        }),
{
    let after = blended(canvas, size.0, size.1, x, y, color, alpha);
    if !(0 <= x < size.0 && 0 <= y < size.1) {
        assert(after =~= canvas);
    }
}

/// Every pixel of an icon is drawn from a pixel of the icon, in order; an icon of the size at which
/// it is drawn is drawn pixel by pixel.
pub proof fn icons_are_sampled_in_order(at: int, next: int, size: u32, length: int)
    requires
        0 <= at <= next < length,
        size > 0,
        length * size <= u32::MAX,
    ensures
        0 <= sampled(at, size, length) < size,
        sampled(at, size, length) <= sampled(next, size, length),
        length == size ==> sampled(at, size, length) == at,
{
    assert(0 <= at * size <= next * size <= length * size) by (nonlinear_arith)
        requires
            0 <= at <= next < length,
            size > 0,
    ;
    vstd::arithmetic::div_mod::lemma_div_is_ordered(at * size, next * size, length);
    vstd::arithmetic::div_mod::lemma_div_pos_is_pos(at * size, length);
    if length == size {
        vstd::arithmetic::div_mod::lemma_div_multiples_vanish(at, length);
        vstd::arithmetic::mul::lemma_mul_is_commutative(at, length);
    }
}

/// A row that is copied fills its place and leaves everything else.
proof fn splicing_fills_its_place(whole: Seq<u8>, start: int, part: Seq<u8>, at: int)
    requires
        0 <= start,
        start + part.len() <= whole.len(),
        0 <= at < whole.len(),
    ensures
        spliced(whole, start, part).len() == whole.len(),
        start <= at < start + part.len() ==> spliced(whole, start, part)[at] == part[at - start],
        !(start <= at < start + part.len()) ==> spliced(whole, start, part)[at] == whole[at],
{
}

/// An image is copied onto a surface row by row: every byte of it stands as far from the corner as in
/// the image.
pub proof fn images_are_copied_whole(
    surface: Seq<u8>,
    stride: nat,
    content: Seq<u8>,
    row_bytes: nat,
    left: nat,
    top: nat,
    rows: nat,
    row: nat,
    byte: nat,
)
    requires
        row < rows,
        byte < row_bytes,
        left * 4 + row_bytes <= stride,
        rows * row_bytes <= content.len(),
        (top + rows) * stride <= surface.len(),
    ensures
        0 <= (top + row) * stride + left * 4 + byte < surface.len(),
        0 <= row * row_bytes + byte < content.len(),
        composed(surface, stride, content, row_bytes, left, top, rows)[((top + row) * stride + left
            * 4 + byte) as int] == content[(row * row_bytes + byte) as int],
    decreases rows,
{
    let last = (rows - 1) as nat;
    let above = composed(surface, stride, content, row_bytes, left, top, last);
    let source = last * row_bytes;
    let target = (top + last) * stride + left * 4;
    let at = (top + row) * stride + left * 4 + byte;
    composed_keeps_size(surface, stride, content, row_bytes, left, top, last);
    assert(source + row_bytes == rows * row_bytes) by (nonlinear_arith)
        requires
            source == last * row_bytes,
            last + 1 == rows,
    ;
    assert((top + last) * stride + stride == (top + rows) * stride) by (nonlinear_arith)
        requires
            last + 1 == rows,
    ;
    assert(row * row_bytes + row_bytes <= rows * row_bytes) by (nonlinear_arith)
        requires
            row + 1 <= rows,
    ;
    assert((top + row) * stride + stride <= (top + rows) * stride) by (nonlinear_arith)
        requires
            row + 1 <= rows,
    ;
    let part = content.subrange(source as int, (source + row_bytes) as int);
    splicing_fills_its_place(above, target as int, part, at as int);
    if row < last {
        assert((top + row) * stride + stride <= (top + last) * stride) by (nonlinear_arith)
            requires
                row + 1 <= last,
        ;
        assert(last * row_bytes <= rows * row_bytes) by (nonlinear_arith)
            requires
                last <= rows,
        ;
        assert((top + last) * stride <= (top + rows) * stride) by (nonlinear_arith)
            requires
                last <= rows,
        ;
        images_are_copied_whole(
            surface,
            stride,
            content,
            row_bytes,
            left,
            top,
            last,
            row,
            byte,
        );
    }
}

/// An icon is drawn into its rectangle: every pixel there is one of the icon, laid over what was
/// there, and every pixel outside stays.
pub proof fn icons_are_drawn_into_their_rectangle(
    canvas: Seq<u8>,
    size: (u32, u32),
    rect: Rect,
    icon: AppIcon,
    x: int,
    y: int,
    channel: int,
)
    requires
        canvas.len() == size.0 * size.1 * 4,
        0 <= x < size.0 <= i32::MAX,
        0 <= y < size.1 <= i32::MAX,
        0 <= channel < 4,
        icon.width > 0,
        icon.height > 0,
    ensures
        ({
            let at = (y * size.0 + x) * 4 + channel;
            let byte = with_icon(canvas, size.0, size.1, rect, icon)[at];
            let inside = rect.x <= x < rect.x + rect.width && rect.y <= y < rect.y + rect.height;
            let column = sampled(x - rect.x, icon.width, rect.width as int);
            let row = sampled(y - rect.y, icon.height, rect.height as int);
            let start = (row * icon.width + column) * 4;
            &&& !inside ==> byte == canvas[at]
            &&& inside && start + 4 <= icon.rgba@.len() ==> {
                &&& channel == 3 ==> byte == 255
                &&& channel < 3 && icon.rgba@[start + 3] == 255 ==> byte == icon.rgba@[start + 2
                    - channel]
                &&& channel < 3 && icon.rgba@[start + 3] == 0 ==> byte == canvas[at]
            }
        }),
{
    byte_place(size.0, size.1, x, y, channel);
    let at = (y * size.0 + x) * 4 + channel;
    let inside = rect.x <= x < rect.x + rect.width && rect.y <= y < rect.y + rect.height;
    if inside {
        let column = sampled(x - rect.x, icon.width, rect.width as int);
        let row = sampled(y - rect.y, icon.height, rect.height as int);
        let start = (row * icon.width + column) * 4;
        assert(start == sample_start(icon, rect, x - rect.x, y - rect.y));
        if channel < 3 && start + 4 <= icon.rgba@.len() {
            let color = Color {
                red: icon.rgba@[start],
                green: icon.rgba@[start + 1],
                blue: icon.rgba@[start + 2],
                alpha: icon.rgba@[start + 3],
            };
            blending_mixes_colours(canvas[at], color, color.alpha, channel);
        }
    }
}

/// A character is drawn from its corner on: what it covers fully has its colour, and what it does not
/// cover stays.
pub proof fn characters_are_drawn_from_their_corner(
    canvas: Seq<u8>,
    size: (u32, u32),
    place: (i32, i32),
    glyph: Glyph,
    color: Color,
    x: int,
    y: int,
    channel: int,
)
    requires
        canvas.len() == size.0 * size.1 * 4,
        0 <= x < size.0 <= i32::MAX,
        0 <= y < size.1 <= i32::MAX,
        0 <= channel < 3,
    ensures
        ({
            let at = (y * size.0 + x) * 4 + channel;
            let byte = with_glyph(canvas, size.0, size.1, place, glyph, color)[at];
            let (column, row) = (x - place.0, y - place.1);
            let inside = 0 <= column < glyph.width && 0 <= row < glyph.height;
            let cover = glyph.bitmap@[row * glyph.width + column];
            &&& !inside || cover == 0 ==> byte == canvas[at]
            &&& inside && cover == 255 ==> byte == channel_of(color, channel)
        }),
{
    byte_place(size.0, size.1, x, y, channel);
    let at = (y * size.0 + x) * 4 + channel;
    blending_mixes_colours(canvas[at], color, 255, channel);
}

} // verus!
