use vstd::prelude::*;
use crate::grid::{Grid, count_true};
use crate::history::{Fingerprint, History, classify, detect_loop};
use crate::rules::{advance, is_successor};
use crate::render::{render, rendered};
use crate::stats::{print_stats, decimal};

verus! {

/// Why a requested board size cannot be simulated.
#[derive(Debug, PartialEq, Eq, Structural)]
pub enum ConfigError {
    ZeroWidth,
    ZeroHeight,
    TooLarge,
}

/// Accepts a board size with both sides positive and a cell count that fits
/// in `usize`.
pub fn check_dimensions(width: usize, height: usize) -> (r: Result<(usize, usize), ConfigError>)
    ensures
        width == 0 ==> r == Err::<(usize, usize), ConfigError>(ConfigError::ZeroWidth),
        width > 0 && height == 0 ==> r == Err::<(usize, usize), ConfigError>(ConfigError::ZeroHeight),
        width > 0 && height > 0 && width * height > usize::MAX ==> r == Err::<(usize, usize), ConfigError>(
            ConfigError::TooLarge,
        ),
        width > 0 && height > 0 && width * height <= usize::MAX ==> r == Ok::<(usize, usize), ConfigError>(
            (width, height),
        ),
{
    if width == 0 {
        Err(ConfigError::ZeroWidth)
    } else if height == 0 {
        Err(ConfigError::ZeroHeight)
    } else if height > usize::MAX / width {
        proof {
            assert(width * height > usize::MAX) by (nonlinear_arith)
                requires
                    width > 0,
                    height > usize::MAX / width,
            ;
        }
        Err(ConfigError::TooLarge)
    } else {
        proof {
            assert(width * height <= usize::MAX) by (nonlinear_arith)
                requires
                    width > 0,
                    height <= usize::MAX / width,
            ;
        }
        Ok((width, height))
    }
}

/// What one iteration of the generation loop did.
#[derive(Debug, PartialEq, Eq, Structural)]
pub enum StepOutcome {
    /// No repeat: the board moved on to the next generation.
    Advanced,
    /// A repeat of the generation `loop_start` was found and, in infinite
    /// mode, the run began again on a fresh board.
    Restarted { loop_start: usize },
    /// A repeat of the generation `loop_start` was found; the run is over.
    Looped { loop_start: usize },
}

/// The state of one run: the current board, its generation, the history of
/// the generations seen, and whether a repeat restarts the run.
pub struct Simulation {
    width: usize,
    height: usize,
    grid: Grid,
    generation: usize,
    history: History,
    infinite: bool,
}

impl Simulation {
    pub closed spec fn board(&self) -> Grid {
        self.grid
    }

    pub closed spec fn gen(&self) -> nat {
        self.generation as nat
    }

    pub closed spec fn seen(&self) -> Map<Fingerprint, usize> {
        self.history.entries()
    }

    pub closed spec fn restarts(&self) -> bool {
        self.infinite
    }

    pub closed spec fn wf(&self) -> bool {
        &&& self.grid.wf()
        &&& self.grid.cols() == self.width
        &&& self.grid.rows() == self.height
        &&& self.history.entries().dom().finite()
    }

    /// Whether `next` is the state right after a restart of `prev`: same
    /// mode, a board of the same size, generation zero, nothing seen.
    pub open spec fn restarted(prev: Simulation, next: Simulation) -> bool {
        &&& next.wf()
        &&& next.board().cols() == prev.board().cols()
        &&& next.board().rows() == prev.board().rows()
        &&& next.gen() == 0
        &&& next.seen().is_empty()
        &&& next.seen().dom().finite()
        &&& next.restarts() == prev.restarts()
    }

    /// A run starting at generation zero on `grid`, with nothing seen yet.
    pub fn with_grid(grid: Grid, infinite: bool) -> (s: Simulation)
        requires
            grid.wf(),
        ensures
            s.wf(),
            s.board() == grid,
            s.gen() == 0,
            s.seen().is_empty(),
            s.seen().dom().finite(),
            s.restarts() == infinite,
    {
        let width = grid.width();
        let height = grid.height();
        Simulation { width, height, grid, generation: 0, history: History::new(), infinite }
    }

    /// A run starting at generation zero on a random board of the given size.
    pub fn new(width: usize, height: usize, infinite: bool) -> (s: Simulation)
        requires
            width >= 1,
            height >= 1,
            width * height <= usize::MAX,
        ensures
            s.wf(),
            s.board().cols() == width,
            s.board().rows() == height,
            s.gen() == 0,
            s.seen().is_empty(),
            s.seen().dom().finite(),
            s.restarts() == infinite,
    {
        Simulation::with_grid(Grid::random(width, height), infinite)
    }

    pub fn generation(&self) -> (r: usize)
        ensures
            r == self.gen(),
    {
        self.generation
    }

    pub fn grid(&self) -> (r: &Grid)
        ensures
            *r == self.board(),
    {
        &self.grid
    }

    /// The text of the current frame.
    pub fn frame(&self) -> (r: String)
        requires
            self.wf(),
        ensures
            r@ == rendered(self.board()),
    {
        render(&self.grid)
    }

    /// The statistics lines for the current frame.
    pub fn stats(&self) -> (r: Vec<String>)
        requires
            self.wf(),
        ensures
            r@.len() == 2,
            r@[0]@ == "Generation: "@ + decimal(self.gen()),
            r@[1]@ == "Population: "@ + decimal(count_true(self.board().flat())),
    {
        print_stats(&self.grid, self.generation)
    }

    /// One iteration after the current frame was shown: the board is looked
    /// up in the history. If it is new it is recorded and the board advances
    /// one generation. If it repeats an earlier generation, an infinite run
    /// starts over on a fresh random board with an empty history, and any
    /// other run stays as it is and reports where the cycle began.
    pub fn step(&mut self) -> (r: StepOutcome)
        requires
            old(self).wf(),
            old(self).gen() < usize::MAX,
        ensures
            final(self).wf(),
            final(self).seen().dom().finite(),
            final(self).restarts() == old(self).restarts(),
            ({
                let (seen, found) = classify(old(self).seen(), old(self).board().key(), old(self).gen() as usize);
                match found {
                    None => {
                        &&& r == StepOutcome::Advanced
                        &&& is_successor(old(self).board(), final(self).board())
                        &&& final(self).gen() == old(self).gen() + 1
                        &&& final(self).seen() == seen
                    },
                    Some(start) => if old(self).restarts() {
                        &&& r == (StepOutcome::Restarted { loop_start: start })
                        &&& Simulation::restarted(*old(self), *final(self))
                    } else {
                        &&& r == (StepOutcome::Looped { loop_start: start })
                        &&& final(self).board() == old(self).board()
                        &&& final(self).gen() == old(self).gen()
                        &&& final(self).seen() == old(self).seen()
                    },
                }
            }),
    {
        match detect_loop(&self.grid, self.generation, &mut self.history) {
            None => {
                self.grid = advance(&self.grid);
                self.generation = self.generation + 1;
                StepOutcome::Advanced
            },
            Some(start) => {
                if self.infinite {
                    proof {
                        self.grid.lemma_wf_dims();
                    }
                    self.grid = Grid::random(self.width, self.height);
                    self.generation = 0;
                    self.history = History::new();
                    StepOutcome::Restarted { loop_start: start }
                } else {
                    StepOutcome::Looped { loop_start: start }
                }
            },
        }
    }
}

/// Deadline-based pacing on a clock that counts nanoseconds. Each deadline
/// is the previous one plus the interval, so a late wake-up delays the
/// frames that follow without bunching them up.
pub struct Pacer {
    pub interval: u64,
    pub deadline: u64,
}

impl Pacer {
    /// Pacing that starts at time `start`; an interval of zero means frames
    /// run back to back.
    pub fn new(start: u64, interval: u64) -> (p: Pacer)
        requires
            start + interval <= u64::MAX,
        ensures
            p.interval == interval,
            p.deadline == start + interval,
    {
        Pacer { interval, deadline: start + interval }
    }

    /// Whether frames wait for their deadline at all.
    pub fn is_throttled(&self) -> (r: bool)
        ensures
            r == (self.interval > 0),
    {
        self.interval > 0
    }

    /// How long to sleep at time `now` so as not to wake before the
    /// deadline: zero once it has passed.
    pub fn wait_at(&self, now: u64) -> (r: u64)
        ensures
            r == if self.deadline > now { self.deadline - now } else { 0 },
            now + r >= self.deadline,
    {
        if self.deadline > now {
            self.deadline - now
        } else {
            0
        }
    }

    /// Moves the deadline on by one interval.
    pub fn advance(&mut self)
        requires
            old(self).deadline + old(self).interval <= u64::MAX,
        ensures
            final(self).interval == old(self).interval,
            final(self).deadline == old(self).deadline + old(self).interval,
    {
        self.deadline = self.deadline + self.interval;
    }
}

/// Number of terminal lines kept free of the board for the text around it:
/// the statistics, the closing message and the blank lines between them.
pub open spec fn reserved_lines_spec(quiet: bool, infinite: bool, noblank: bool, unthrottled: bool) -> int {
    let base: int = if quiet {
        3
    } else {
        6 - (if infinite && !noblank { 1int } else { 0 }) + (if unthrottled { 1int } else { 0 })
    };
    base - if noblank { 3int } else { 0 }
}

pub fn reserved_lines(quiet: bool, infinite: bool, noblank: bool, unthrottled: bool) -> (r: u16)
    ensures
        r == reserved_lines_spec(quiet, infinite, noblank, unthrottled),
{
    let mut lines: u16 = 0;
    if !quiet {
        lines = lines + 6;
        if infinite && !noblank {
            lines = lines - 1;
        }
        if unthrottled {
            lines = lines + 1;
        }
    } else {
        lines = lines + 3;
    }
    if noblank {
        lines = lines - 3;
    }
    lines
}

/// The board height that fills a terminal of `term_rows` lines, two cell
/// rows per line, after `reserved` lines are set aside; `None` where no line
/// is left for the board.
pub fn fitting_height(term_rows: u16, reserved: u16) -> (r: Option<usize>)
    ensures
        term_rows > reserved ==> r == Some((2 * (term_rows - reserved)) as usize),
        term_rows <= reserved ==> r.is_none(),
{
    if term_rows > reserved {
        Some(2 * ((term_rows - reserved) as usize))
    } else {
        None
    }
}

/// After a restart nothing of the discarded history is remembered: the first
/// board looked up, whatever it is, is never reported as a repeat.
pub proof fn lemma_restart_forgets(prev: Simulation, next: Simulation, fp: Fingerprint)
    requires
        Simulation::restarted(prev, next),
    ensures
        classify(next.seen(), fp, next.gen() as usize).1 == None::<usize>,
{
}

} // verus!
