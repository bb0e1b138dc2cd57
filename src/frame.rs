//! Decoded video frames and their reduction to a grid of average tile colors.

use crate::color::Rgb;
use crate::grid::{is_grid, Grid};
use vstd::prelude::*;

verus! {

/// An RGB image: `width`×`height` pixels, three bytes per pixel, row by row.
pub struct Frame {
    width: usize,
    height: usize,
    data: Vec<u8>,
}

/// One channel (`0` red, `1` green, `2` blue) of pixel `(x, y)` in an image
/// of width `w`.
pub open spec fn channel_at(data: Seq<u8>, w: nat, x: int, y: int, ch: int) -> int {
    data[3 * (y * w + x) + ch] as int
}

/// The sum of one channel over the `k` pixels of column `x` from row `y0`
/// down.
pub open spec fn column_sum(data: Seq<u8>, w: nat, ch: int, x: int, y0: int, k: nat) -> int
    decreases k,
{
    if k == 0 {
        0
    } else {
        column_sum(data, w, ch, x, y0, (k - 1) as nat) + channel_at(data, w, x, y0 + k - 1, ch)
    }
}

/// The sum of one channel over the tile of `k` columns from `x0` and `th` rows
/// from `y0`.
pub open spec fn tile_sum(
    data: Seq<u8>,
    w: nat,
    ch: int,
    x0: int,
    y0: int,
    th: nat,
    k: nat,
) -> int
    decreases k,
{
    if k == 0 {
        0
    } else {
        tile_sum(data, w, ch, x0, y0, th, (k - 1) as nat) + column_sum(data, w, ch, x0 + k - 1, y0, th)
    }
}

/// The average color of the tile at column `x` and row `y` when an image of
/// `w`×`h` pixels is cut into `n`×`n` tiles of `w / n`×`h / n` pixels each
/// (channel sums divided by the pixel count, rounded down).
pub open spec fn tile_color(data: Seq<u8>, w: nat, h: nat, n: nat, x: int, y: int) -> Rgb {
    let tw = w / n;
    let th = h / n;
    let count = tw * th;
    Rgb {
        r: (tile_sum(data, w, 0, x * tw, y * th, th, tw) / count as int) as u8,
        g: (tile_sum(data, w, 1, x * tw, y * th, th, tw) / count as int) as u8,
        b: (tile_sum(data, w, 2, x * tw, y * th, th, tw) / count as int) as u8,
    }
}

proof fn lemma_pixel_index(w: int, h: int, x: int, y: int)
    requires
        0 <= x < w,
        0 <= y < h,
    ensures
        0 <= y * w + x,
        y * w + x < w * h,
        3 * (y * w + x) + 2 < 3 * (w * h),
{
    assert(0 <= y * w + x && y * w + x < w * h) by (nonlinear_arith)
        requires
            0 <= x < w,
            0 <= y < h,
    ;
}

proof fn lemma_column_sum_bound(data: Seq<u8>, w: nat, ch: int, x: int, y0: int, k: nat)
    ensures
        0 <= column_sum(data, w, ch, x, y0, k) <= 255 * k,
    decreases k,
{
    if k > 0 {
        lemma_column_sum_bound(data, w, ch, x, y0, (k - 1) as nat);
    }
}

proof fn lemma_tile_sum_bound(data: Seq<u8>, w: nat, ch: int, x0: int, y0: int, th: nat, k: nat)
    ensures
        0 <= tile_sum(data, w, ch, x0, y0, th, k) <= 255 * th * k,
    decreases k,
{
    if k > 0 {
        lemma_tile_sum_bound(data, w, ch, x0, y0, th, (k - 1) as nat);
        lemma_column_sum_bound(data, w, ch, x0 + k - 1, y0, th);
        assert(255 * th * (k - 1) + 255 * th == 255 * th * k) by (nonlinear_arith);
    }
}

/// The sum of channel `ch` over the tile of `tw` columns from `x0` and `th`
/// rows from `y0`.
fn tile_channel_sum(
    data: &Vec<u8>,
    w: usize,
    h: usize,
    ch: usize,
    x0: usize,
    y0: usize,
    tw: usize,
    th: usize,
) -> (s: u128)
    requires
        ch < 3,
        x0 + tw <= w,
        y0 + th <= h,
        3 * (w * h) <= data@.len(),
    ensures
        s == tile_sum(data@, w as nat, ch as int, x0 as int, y0 as int, th as nat, tw as nat),
{
    proof {
        assert(w * h <= data@.len()) by (nonlinear_arith)
            requires
                3 * (w * h) <= data@.len(),
        ;
        assert(tw * th <= w * h) by (nonlinear_arith)
            requires
                x0 + tw <= w,
                y0 + th <= h,
                0 <= x0,
                0 <= y0,
        ;
    }
    let len = data.len();
    let mut total: u128 = 0;
    let mut i: usize = 0;
    while i < tw
        invariant
            ch < 3,
            x0 + tw <= w,
            y0 + th <= h,
            3 * (w * h) <= data@.len(),
            tw * th <= w * h <= data@.len(),
            data@.len() == len,
            0 <= i <= tw,
            total == tile_sum(data@, w as nat, ch as int, x0 as int, y0 as int, th as nat, i as nat),
        decreases tw - i,
    {
        let mut column: u128 = 0;
        let mut j: usize = 0;
        while j < th
            invariant
                ch < 3,
                x0 + tw <= w,
                y0 + th <= h,
                3 * (w * h) <= data@.len(),
                0 <= i < tw,
                0 <= j <= th,
                w * h <= data@.len(),
                data@.len() == len,
                column == column_sum(data@, w as nat, ch as int, (x0 + i) as int, y0 as int, j as nat),
            decreases th - j,
        {
            proof {
                lemma_pixel_index(w as int, h as int, (x0 + i) as int, (y0 + j) as int);
                lemma_column_sum_bound(data@, w as nat, ch as int, (x0 + i) as int, y0 as int, j as nat);
            }
            let idx: usize = 3 * ((y0 + j) * w + (x0 + i)) + ch;
            column = column + data[idx] as u128;
            j += 1;
        }
        proof {
            lemma_tile_sum_bound(data@, w as nat, ch as int, x0 as int, y0 as int, th as nat, i as nat);
            lemma_column_sum_bound(data@, w as nat, ch as int, (x0 + i) as int, y0 as int, th as nat);
            assert(255 * th * i + 255 * th <= 255 * (w * h)) by (nonlinear_arith)
                requires
                    i < tw,
                    tw * th <= w * h,
            ;
            assert(255 * (w * h) <= u128::MAX) by (nonlinear_arith)
                requires
                    w * h <= usize::MAX,
                    usize::MAX <= u64::MAX,
            ;
        }
        total = total + column;
        i += 1;
    }
    total
}

/// `sum / count` for a sum of at most 255 per counted pixel.
fn average(sum: u128, count: u128) -> (a: u8)
    requires
        count > 0,
        sum <= 255 * count,
    ensures
        a == sum / count,
{
    proof {
        assert(sum / count <= 255) by (nonlinear_arith)
            requires
                count > 0,
                sum <= 255 * count,
        ;
    }
    (sum / count) as u8
}

impl Frame {
    /// The width in pixels.
    pub closed spec fn width_spec(&self) -> nat {
        self.width as nat
    }

    /// The height in pixels.
    pub closed spec fn height_spec(&self) -> nat {
        self.height as nat
    }

    /// The pixel bytes.
    pub closed spec fn bytes(&self) -> Seq<u8> {
        self.data@
    }

    /// The bytes hold every pixel.
    pub open spec fn wf(&self) -> bool {
        3 * (self.width_spec() * self.height_spec()) <= self.bytes().len()
    }

    /// A frame of `width`×`height` pixels over `data`, or nothing when
    /// `data` is too short to hold them.
    pub fn new(width: usize, height: usize, data: Vec<u8>) -> (r: Option<Frame>)
        ensures
            r is Some <==> 3 * (width * height) <= data@.len(),
            r matches Some(f) ==> f.wf() && f.width_spec() == width && f.height_spec() == height
                && f.bytes() == data@,
    {
        proof {
            assert(width as u128 * height as u128 <= u128::MAX) by (nonlinear_arith)
                requires
                    width <= u64::MAX,
                    height <= u64::MAX,
            ;
        }
        let pixels: u128 = width as u128 * height as u128;
        if pixels > data.len() as u128 / 3 {
            return None;
        }
        Some(Frame { width, height, data })
    }

    /// The width in pixels.
    pub fn width(&self) -> (w: usize)
        ensures
            w == self.width_spec(),
    {
        self.width
    }

    /// The height in pixels.
    pub fn height(&self) -> (h: usize)
        ensures
            h == self.height_spec(),
    {
        self.height
    }
}

/// Cuts `frame` into `n`×`n` tiles and gives the average color of each, row
/// by row. The tiles are `width / n`×`height / n` pixels; pixels beyond them
/// at the right and bottom edges are not read.
pub fn process_frame_to_grid(frame: &Frame, n: usize) -> (g: Grid)
    requires
        frame.wf(),
        0 < n <= frame.width_spec(),
        n <= frame.height_spec(),
    ensures
        is_grid(g@, n as nat),
        forall|y: int, x: int|
            0 <= y < n && 0 <= x < n ==> #[trigger] g@[y]@[x] == tile_color(
                frame.bytes(),
                frame.width_spec(),
                frame.height_spec(),
                n as nat,
                x,
                y,
            ),
{
    let w = frame.width;
    let h = frame.height;
    let tw = w / n;
    let th = h / n;
    proof {
        assert(tw > 0 && th > 0) by (nonlinear_arith)
            requires
                0 < n <= w,
                n <= h,
                tw == w / n,
                th == h / n,
        ;
        assert(n * tw <= w && n * th <= h) by (nonlinear_arith)
            requires
                0 < n,
                tw == w / n,
                th == h / n,
        ;
        assert(0 < tw * th <= w * h) by (nonlinear_arith)
            requires
                0 < tw <= w,
                0 < th <= h,
        ;
        assert(w * h <= frame.bytes().len()) by (nonlinear_arith)
            requires
                3 * (w * h) <= frame.bytes().len(),
        ;
    }
    let len = frame.data.len();
    let count_pixels: usize = tw * th;
    let count: u128 = count_pixels as u128;
    let mut g: Grid = Vec::new();
    let mut y: usize = 0;
    while y < n
        invariant
            frame.wf(),
            w == frame.width_spec(),
            h == frame.height_spec(),
            0 < n,
            tw == w / n,
            th == h / n,
            tw > 0,
            th > 0,
            n * tw <= w,
            n * th <= h,
            count == tw * th,
            count > 0,
            0 <= y <= n,
            g@.len() == y,
            forall|r: int| 0 <= r < y ==> (#[trigger] g@[r])@.len() == n,
            forall|r: int, x: int|
                0 <= r < y && 0 <= x < n ==> #[trigger] g@[r]@[x] == tile_color(
                    frame.bytes(),
                    w as nat,
                    h as nat,
                    n as nat,
                    x,
                    r,
                ),
        decreases n - y,
    {
        let mut row: Vec<Rgb> = Vec::new();
        let mut x: usize = 0;
        while x < n
            invariant
                frame.wf(),
                w == frame.width_spec(),
                h == frame.height_spec(),
                0 < n,
                tw == w / n,
                th == h / n,
                tw > 0,
                th > 0,
                n * tw <= w,
                n * th <= h,
                count == tw * th,
                count > 0,
                0 <= y < n,
                0 <= x <= n,
                row@.len() == x,
                forall|c: int|
                    0 <= c < x ==> #[trigger] row@[c] == tile_color(
                        frame.bytes(),
                        w as nat,
                        h as nat,
                        n as nat,
                        c,
                        y as int,
                    ),
            decreases n - x,
        {
            proof {
                assert(x * tw + tw <= w && y * th + th <= h) by (nonlinear_arith)
                    requires
                        x < n,
                        y < n,
                        n * tw <= w,
                        n * th <= h,
                ;
            }
            let x0 = x * tw;
            let y0 = y * th;
            let ghost data = frame.bytes();
            let r = tile_channel_sum(&frame.data, w, h, 0, x0, y0, tw, th);
            let gr = tile_channel_sum(&frame.data, w, h, 1, x0, y0, tw, th);
            let b = tile_channel_sum(&frame.data, w, h, 2, x0, y0, tw, th);
            proof {
                lemma_tile_sum_bound(data, w as nat, 0, x0 as int, y0 as int, th as nat, tw as nat);
                lemma_tile_sum_bound(data, w as nat, 1, x0 as int, y0 as int, th as nat, tw as nat);
                lemma_tile_sum_bound(data, w as nat, 2, x0 as int, y0 as int, th as nat, tw as nat);
                assert(255 * th * tw == 255 * (tw * th)) by (nonlinear_arith);
            }
            let c = Rgb { r: average(r, count), g: average(gr, count), b: average(b, count) };
            row.push(c);
            x += 1;
        }
        g.push(row);
        y += 1;
    }
    g
}

} // verus!
