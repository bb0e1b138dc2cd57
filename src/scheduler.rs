//! The frame update scheduler: a single-flight state machine that turns each
//! tick into the delta to publish.

use crate::color::Rgb;
use crate::grid::{diff, diff_spec, is_grid, CellUpdate, Grid};
use crate::source::{
    advance_cursor, draw_cell, recolored, same_grid, CellDraw, FrameSource, SourceError,
};
use vstd::prelude::*;

verus! {

/// Where the scheduler stands within one cycle.
#[derive(Clone, Copy, Debug, PartialEq, Eq, Structural)]
pub enum Phase {
    /// Waiting for the next tick.
    Idle,
    /// A tick was accepted; the next state is still to be computed.
    Ticking,
    /// The delta of this cycle is being published.
    Publishing,
}

/// The per-tick driver: the frame source, the grid dimension, the state kept
/// to diff against, and the cycle phase.
pub struct Scheduler {
    pub source: FrameSource,
    pub size: usize,
    pub previous: Option<Grid>,
    pub phase: Phase,
    /// Ticks that came while a cycle was still in flight.
    pub skipped: u64,
}

/// The cells of an optional grid.
pub open spec fn grid_view(g: Option<Grid>) -> Option<Seq<Vec<Rgb>>> {
    match g {
        Some(p) => Some(p@),
        None => None,
    }
}

/// `t` is `s` after one cycle step with random draw `d` that produced
/// `delta`: the next state comes from the source, `delta` is its diff against
/// the previous state, and the next state is kept as the new previous one.
pub open spec fn stepped(s: Scheduler, d: CellDraw, t: Scheduler, delta: Seq<CellUpdate>) -> bool {
    &&& t.size == s.size
    &&& t.skipped == s.skipped
    &&& t.phase == Phase::Publishing
    &&& match t.previous {
        Some(g) => {
            &&& match s.source {
                FrameSource::Random => {
                    &&& t.source == FrameSource::Random
                    &&& match s.previous {
                        Some(p) => recolored(p@, d, g@),
                        None => false,
                    }
                },
                FrameSource::Video { frames, cursor } => {
                    &&& t.source == (FrameSource::Video {
                        frames,
                        cursor: advance_cursor(cursor as nat, frames@.len()) as usize,
                    })
                    &&& same_grid(g@, frames@[cursor as int]@)
                },
            }
            &&& delta == diff_spec(grid_view(s.previous), g@)
        },
        None => false,
    }
}

/// An `n`×`n` grid of black cells.
pub fn blank_grid(n: usize) -> (g: Grid)
    ensures
        is_grid(g@, n as nat),
        forall|r: int, c: int|
            0 <= r < n && 0 <= c < n ==> (#[trigger] g@[r]@[c]) == (Rgb { r: 0, g: 0, b: 0 }),
{
    let mut g: Grid = Vec::new();
    let mut i: usize = 0;
    while i < n
        invariant
            0 <= i <= n,
            g@.len() == i,
            forall|j: int| 0 <= j < i ==> (#[trigger] g@[j])@.len() == n,
            forall|r: int, c: int|
                0 <= r < i && 0 <= c < n ==> (#[trigger] g@[r]@[c]) == (Rgb { r: 0, g: 0, b: 0 }),
        decreases n - i,
    {
        let mut row: Vec<Rgb> = Vec::new();
        let mut c: usize = 0;
        while c < n
            invariant
                0 <= c <= n,
                row@.len() == c,
                forall|k: int| 0 <= k < c ==> (#[trigger] row@[k]) == (Rgb { r: 0, g: 0, b: 0 }),
            decreases n - c,
        {
            row.push(Rgb { r: 0, g: 0, b: 0 });
            c += 1;
        }
        g.push(row);
        i += 1;
    }
    g
}

impl Scheduler {
    /// The scheduler is consistent: a positive dimension, a source and a
    /// previous state of that dimension, and a previous state whenever the
    /// source is random.
    pub open spec fn wf(&self) -> bool {
        &&& self.size > 0
        &&& self.source.wf(self.size as nat)
        &&& match self.previous {
            Some(p) => is_grid(p@, self.size as nat),
            None => !(self.source is Random),
        }
    }

    /// A random-mode scheduler over an all-black `size`×`size` grid.
    pub fn random(size: usize) -> (s: Scheduler)
        requires
            size > 0,
        ensures
            s.wf(),
            s.size == size,
            s.source == FrameSource::Random,
            s.phase == Phase::Idle,
            s.skipped == 0,
            match s.previous {
                Some(p) => forall|r: int, c: int|
                    0 <= r < size && 0 <= c < size ==> (#[trigger] p@[r]@[c]) == (Rgb {
                        r: 0,
                        g: 0,
                        b: 0,
                    }),
                None => false,
            },
    {
        Scheduler {
            source: FrameSource::Random,
            size,
            previous: Some(blank_grid(size)),
            phase: Phase::Idle,
            skipped: 0,
        }
    }

    /// A video-mode scheduler playing `frames` in a loop, with no previous
    /// state yet; fails when `frames` is empty or holds a frame that is not a
    /// `size`×`size` grid.
    pub fn video(size: usize, frames: Vec<Grid>) -> (r: Result<Scheduler, SourceError>)
        requires
            size > 0,
        ensures
            frames@.len() == 0 ==> r == Err::<Scheduler, SourceError>(
                SourceError::FrameSourceExhaustion,
            ),
            frames@.len() > 0 && (exists|i: int|
                0 <= i < frames@.len() && !is_grid(#[trigger] frames@[i]@, size as nat)) ==> r
                == Err::<Scheduler, SourceError>(SourceError::InvalidConfiguration),
            r is Ok <==> frames@.len() > 0 && forall|i: int|
                0 <= i < frames@.len() ==> is_grid(#[trigger] frames@[i]@, size as nat),
            r matches Ok(s) ==> {
                &&& s.wf()
                &&& s.size == size
                &&& s.source == (FrameSource::Video { frames, cursor: 0 })
                &&& s.previous is None
                &&& s.phase == Phase::Idle
                &&& s.skipped == 0
            },
    {
        match FrameSource::video(frames, size) {
            Ok(source) => Ok(
                Scheduler { source, size, previous: None, phase: Phase::Idle, skipped: 0 },
            ),
            Err(e) => Err(e),
        }
    }

    /// Accepts a tick when no cycle is in flight; otherwise skips it and
    /// counts the skip.
    pub fn try_begin_tick(&mut self) -> (started: bool)
        ensures
            started == (old(self).phase == Phase::Idle),
            final(self).source == old(self).source,
            final(self).size == old(self).size,
            final(self).previous == old(self).previous,
            started ==> final(self).phase == Phase::Ticking && final(self).skipped == old(
                self,
            ).skipped,
            !started ==> final(self).phase == old(self).phase && final(self).skipped == if old(
                self,
            ).skipped < u64::MAX {
                (old(self).skipped + 1) as u64
            } else {
                old(self).skipped
            },
    {
        if self.phase == Phase::Idle {
            self.phase = Phase::Ticking;
            true
        } else {
            if self.skipped < u64::MAX {
                self.skipped = self.skipped + 1;
            }
            false
        }
    }

    /// Computes the next state with draw `d` (used in random mode only),
    /// keeps it as the previous state, and returns its delta against the
    /// state kept before.
    pub fn advance(&mut self, d: CellDraw) -> (delta: Vec<CellUpdate>)
        requires
            old(self).wf(),
            old(self).phase == Phase::Ticking,
            d.row < old(self).size,
            d.col < old(self).size,
        ensures
            final(self).wf(),
            stepped(*old(self), d, *final(self), delta@),
    {
        let n = self.size;
        let empty: Grid = Vec::new();
        let next = match &self.previous {
            Some(p) => self.source.next_state(p, n, d),
            None => self.source.next_state(&empty, n, d),
        };
        let delta = diff(self.previous.as_ref(), &next);
        self.previous = Some(next);
        self.phase = Phase::Publishing;
        delta
    }

    /// One cycle step with a fresh random draw; see `advance`.
    pub fn tick(&mut self) -> (delta: Vec<CellUpdate>)
        requires
            old(self).wf(),
            old(self).phase == Phase::Ticking,
        ensures
            final(self).wf(),
            exists|d: CellDraw|
                d.row < old(self).size && d.col < old(self).size && stepped(
                    *old(self),
                    d,
                    *final(self),
                    delta@,
                ),
    {
        let d = draw_cell(self.size);
        self.advance(d)
    }

    /// Ends the cycle once its delta was published.
    pub fn finish_publish(&mut self)
        requires
            old(self).phase == Phase::Publishing,
        ensures
            final(self).phase == Phase::Idle,
            final(self).source == old(self).source,
            final(self).size == old(self).size,
            final(self).previous == old(self).previous,
            final(self).skipped == old(self).skipped,
    {
        self.phase = Phase::Idle;
    }
}

} // verus!
