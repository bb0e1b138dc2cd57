//! Frame sources: where the next grid state comes from.

use crate::color::Rgb;
use crate::grid::{is_grid, Grid};
use vstd::prelude::*;

verus! {

/// Why a frame source could not be set up.
#[derive(Clone, Copy, Debug, PartialEq, Eq, Structural)]
pub enum SourceError {
    /// The video sequence holds no frame.
    FrameSourceExhaustion,
    /// A frame is not a grid of the configured dimension.
    InvalidConfiguration,
}

/// One random-mode step: the cell to recolor and its new color.
#[derive(Clone, Copy, Debug, PartialEq, Eq, Structural)]
pub struct CellDraw {
    pub row: usize,
    pub col: usize,
    pub color: Rgb,
}

/// Where the next grid state comes from, fixed at startup.
pub enum FrameSource {
    /// Each step recolors one cell of the previous state.
    Random,
    /// Each step returns the frame under the cursor and moves it on, looping.
    Video { frames: Vec<Grid>, cursor: usize },
}

/// `a` and `b` hold the same cells.
pub open spec fn same_grid(a: Seq<Vec<Rgb>>, b: Seq<Vec<Rgb>>) -> bool {
    &&& a.len() == b.len()
    &&& forall|i: int| 0 <= i < a.len() ==> (#[trigger] a[i])@ == b[i]@
}

/// `next` is `prev` with the cell of `d` set to the color of `d`.
pub open spec fn recolored(prev: Seq<Vec<Rgb>>, d: CellDraw, next: Seq<Vec<Rgb>>) -> bool {
    &&& next.len() == prev.len()
    &&& forall|i: int|
        0 <= i < prev.len() ==> (#[trigger] next[i])@ == if i == d.row {
            prev[i]@.update(d.col as int, d.color)
        } else {
            prev[i]@
        }
}

/// The cursor position after one step over `len` frames.
pub open spec fn advance_cursor(cursor: nat, len: nat) -> nat {
    if cursor + 1 >= len {
        0
    } else {
        cursor + 1
    }
}

/// The cursor position after `k` steps.
pub open spec fn cursor_after(cursor: nat, len: nat, k: nat) -> nat
    decreases k,
{
    if k == 0 {
        cursor
    } else {
        advance_cursor(cursor_after(cursor, len, (k - 1) as nat), len)
    }
}

/// After `k` steps over `len` frames the cursor stands at `(cursor + k) % len`.
pub proof fn lemma_cursor_after(cursor: nat, len: nat, k: nat)
    requires
        cursor < len,
    ensures
        cursor_after(cursor, len, k) as int == (cursor + k) as int % (len as int),
    decreases k,
{
    if k == 0 {
        vstd::arithmetic::div_mod::lemma_small_mod(cursor, len);
    } else {
        lemma_cursor_after(cursor, len, (k - 1) as nat);
        let p = (cursor + k - 1) as int;
        let l = len as int;
        let q = p % l;
        vstd::arithmetic::div_mod::lemma_mod_bound(p, l);
        if l == 1 {
            vstd::arithmetic::div_mod::lemma_mod_bound(p + 1, l);
        } else {
            vstd::arithmetic::div_mod::lemma_small_mod(1, len);
            vstd::arithmetic::div_mod::lemma_add_mod_noop(p, 1, l);
            if q + 1 < l {
                vstd::arithmetic::div_mod::lemma_small_mod((q + 1) as nat, len);
            } else {
                vstd::arithmetic::div_mod::lemma_mod_self_0(l);
            }
        }
    }
}

/// Video playback loops: after as many steps as there are frames the cursor
/// is back where it started, so the next frame returned is the first one
/// returned again.
pub proof fn lemma_video_loops(cursor: nat, len: nat)
    requires
        cursor < len,
    ensures
        cursor_after(cursor, len, len) == cursor,
{
    lemma_cursor_after(cursor, len, len);
    vstd::arithmetic::div_mod::lemma_mod_add_multiples_vanish(cursor as int, len as int);
    vstd::arithmetic::div_mod::lemma_small_mod(cursor, len);
}

/// Whether `g` is a grid of dimension `n`.
pub fn check_grid(g: &Grid, n: usize) -> (r: bool)
    ensures
        r == is_grid(g@, n as nat),
{
    if g.len() != n {
        return false;
    }
    let mut i: usize = 0;
    while i < g.len()
        invariant
            0 <= i <= g@.len(),
            g@.len() == n,
            forall|j: int| 0 <= j < i ==> (#[trigger] g@[j])@.len() == n,
        decreases g.len() - i,
    {
        if g[i].len() != n {
            return false;
        }
        i += 1;
    }
    true
}

/// A copy of `g`.
pub fn copy_grid(g: &Grid) -> (r: Grid)
    ensures
        same_grid(r@, g@),
{
    let mut r: Grid = Vec::new();
    let mut i: usize = 0;
    while i < g.len()
        invariant
            0 <= i <= g@.len(),
            r@.len() == i,
            forall|j: int| 0 <= j < i ==> (#[trigger] r@[j])@ == g@[j]@,
        decreases g.len() - i,
    {
        let row = &g[i];
        let mut copy: Vec<Rgb> = Vec::new();
        let mut c: usize = 0;
        while c < row.len()
            invariant
                0 <= c <= row@.len(),
                copy@ == row@.subrange(0, c as int),
            decreases row.len() - c,
        {
            copy.push(row[c]);
            c += 1;
            assert(copy@ =~= row@.subrange(0, c as int));
        }
        assert(copy@ =~= row@);
        r.push(copy);
        i += 1;
    }
    r
}

/// `prev` with cell `(d.row, d.col)` set to `d.color`.
pub fn recolor(prev: &Grid, d: CellDraw) -> (r: Grid)
    requires
        d.row < prev@.len(),
        d.col < prev@[d.row as int]@.len(),
    ensures
        recolored(prev@, d, r@),
{
    let mut r = copy_grid(prev);
    let mut row: Vec<Rgb> = Vec::new();
    r.set_and_swap(d.row, &mut row);
    row.set(d.col, d.color);
    r.set(d.row, row);
    r
}

/// Relies on `rand::thread_rng` and `rand::Rng::gen_range`: a value drawn
/// from `0..bound`. `gen_range` panics on an empty range, which `requires`
/// rules out.
#[verifier::external_body]
fn draw_below(bound: usize) -> (r: usize)
    requires
        bound > 0,
    ensures
        r < bound,
{
    rand::Rng::gen_range(&mut rand::thread_rng(), 0..bound)
}

/// Relies on `rand::random` with `hex_color`'s `Distribution<HexColor>` for
/// `Standard`: a color with randomly drawn channels; any color may come.
#[verifier::external_body]
fn draw_color() -> (c: Rgb) {
    let h: hex_color::HexColor = rand::random();
    Rgb { r: h.r, g: h.g, b: h.b }
}

/// A random cell of an `n`×`n` grid and a random color for it.
pub fn draw_cell(n: usize) -> (d: CellDraw)
    requires
        n > 0,
    ensures
        d.row < n,
        d.col < n,
{
    let row = draw_below(n);
    let col = draw_below(n);
    CellDraw { row, col, color: draw_color() }
}

impl FrameSource {
    /// The source is consistent with grids of dimension `n`: a video source
    /// holds at least one frame, all of dimension `n`, and its cursor is on a
    /// frame.
    pub open spec fn wf(&self, n: nat) -> bool {
        match self {
            FrameSource::Random => true,
            FrameSource::Video { frames, cursor } => {
                &&& frames@.len() > 0
                &&& cursor < frames@.len()
                &&& forall|i: int| 0 <= i < frames@.len() ==> is_grid(#[trigger] frames@[i]@, n)
            },
        }
    }

    /// A video source over `frames`, starting at the first one; each frame
    /// must be an `n`×`n` grid.
    pub fn video(frames: Vec<Grid>, n: usize) -> (r: Result<FrameSource, SourceError>)
        ensures
            frames@.len() == 0 ==> r == Err::<FrameSource, SourceError>(
                SourceError::FrameSourceExhaustion,
            ),
            frames@.len() > 0 && (exists|i: int|
                0 <= i < frames@.len() && !is_grid(#[trigger] frames@[i]@, n as nat)) ==> r
                == Err::<FrameSource, SourceError>(SourceError::InvalidConfiguration),
            r is Ok <==> frames@.len() > 0 && forall|i: int|
                0 <= i < frames@.len() ==> is_grid(#[trigger] frames@[i]@, n as nat),
            r matches Ok(s) ==> s.wf(n as nat) && s == (FrameSource::Video { frames, cursor: 0 }),
    {
        if frames.len() == 0 {
            return Err(SourceError::FrameSourceExhaustion);
        }
        let mut i: usize = 0;
        while i < frames.len()
            invariant
                0 <= i <= frames@.len(),
                forall|j: int| 0 <= j < i ==> is_grid(#[trigger] frames@[j]@, n as nat),
            decreases frames.len() - i,
        {
            if !check_grid(&frames[i], n) {
                return Err(SourceError::InvalidConfiguration);
            }
            i += 1;
        }
        Ok(FrameSource::Video { frames, cursor: 0 })
    }

    /// The next grid state after `previous`: in random mode `previous` with
    /// the cell of `d` recolored; in video mode the frame under the cursor,
    /// after which the cursor moves on, back to the first frame after the
    /// last; `previous` is not read in video mode.
    pub fn next_state(&mut self, previous: &Grid, n: usize, d: CellDraw) -> (r: Grid)
        requires
            old(self).wf(n as nat),
            *old(self) is Random ==> is_grid(previous@, n as nat),
            d.row < n,
            d.col < n,
        ensures
            final(self).wf(n as nat),
            is_grid(r@, n as nat),
            match *old(self) {
                FrameSource::Random => *final(self) == FrameSource::Random && recolored(
                    previous@,
                    d,
                    r@,
                ),
                FrameSource::Video { frames, cursor } => *final(self) == (FrameSource::Video {
                    frames,
                    cursor: advance_cursor(cursor as nat, frames@.len()) as usize,
                }) && same_grid(r@, frames@[cursor as int]@),
            },
    {
        match self {
            FrameSource::Random => {
                let r = recolor(previous, d);
                assert(is_grid(r@, n as nat)) by {
                    assert forall|i: int| 0 <= i < n implies (#[trigger] r@[i])@.len() == n by {
                        assert(previous@[i]@.len() == n);
                    }
                }
                r
            },
            FrameSource::Video { frames, cursor } => {
                let r = copy_grid(&frames[*cursor]);
                assert(is_grid(r@, n as nat)) by {
                    assert(is_grid(frames@[*cursor as int]@, n as nat));
                    assert forall|i: int| 0 <= i < n implies (#[trigger] r@[i])@.len() == n by {
                        assert(frames@[*cursor as int]@[i]@.len() == n);
                    }
                }
                if *cursor >= frames.len() - 1 {
                    *cursor = 0;
                } else {
                    *cursor = *cursor + 1;
                }
                r
            },
        }
    }
}

} // verus!
