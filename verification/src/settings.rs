//! Tunable parameters of the world.

use vstd::prelude::*;

verus! {

/// Horizontal radius of the working set, in chunks.
pub const CHUNK_RADIUS: i32 = 20;

/// Number of finished chunks admitted to the live set in one frame.
pub const CHUNKS_PER_FRAME: i32 = 600;

/// Number of background workers.
pub const N_WORKERS: usize = 10;

/// Edge length of a chunk, in cells.
pub const S: usize = 32;

/// Largest edge length a chunk may have: with six faces of six indices on
/// each of `MAX_EDGE`^3 cells the length of an index stream still fits in a
/// signed count of 32 bits.
pub const MAX_EDGE: usize = 390;

/// Whether `s` can be the edge length of a chunk.
pub open spec fn valid_edge(s: int) -> bool {
    1 <= s <= MAX_EDGE as int
}

/// The parameters a world is built with. They do not change afterwards.
#[derive(Clone, Copy, Debug, PartialEq, Eq, Structural)]
pub struct Settings {
    /// Horizontal radius of the working set, in chunks.
    pub chunk_radius: i32,
    /// Vertical radius is the horizontal one divided by this.
    pub vertical_divisor: i32,
    /// Number of finished chunks admitted in one frame.
    pub chunks_per_frame: i32,
    /// Number of background workers.
    pub n_workers: usize,
    /// Edge length of a chunk, in cells.
    pub s: usize,
}

impl Settings {
    /// Whether these parameters describe a world that can be run: a chunk
    /// edge that is a power of two within the limit, a radius that is not
    /// negative, a positive divisor and at least one worker.
    pub open spec fn is_valid(self) -> bool {
        &&& valid_edge(self.s as int)
        &&& is_power_of_two(self.s as int)
        &&& 0 <= self.chunk_radius
        &&& 1 <= self.vertical_divisor
        &&& 0 <= self.chunks_per_frame
        &&& 1 <= self.n_workers
    }

    /// Radius of the working set along the vertical axis.
    pub open spec fn vertical_radius(self) -> int {
        self.chunk_radius as int / self.vertical_divisor as int
    }

    /// The parameters the world ships with.
    pub fn new() -> (r: Settings)
        ensures
            r == (Settings {
                chunk_radius: CHUNK_RADIUS,
                vertical_divisor: 3,
                chunks_per_frame: CHUNKS_PER_FRAME,
                n_workers: N_WORKERS,
                s: S,
            }),
            r.is_valid(),
    {
        proof {
            lemma_power_of_two_step(1);
            lemma_power_of_two_step(2);
            lemma_power_of_two_step(4);
            lemma_power_of_two_step(8);
            lemma_power_of_two_step(16);
        }
        Settings {
            chunk_radius: CHUNK_RADIUS,
            vertical_divisor: 3,
            chunks_per_frame: CHUNKS_PER_FRAME,
            n_workers: N_WORKERS,
            s: S,
        }
    }

    /// Tells whether the parameters can be used.
    pub fn validate(&self) -> (ok: bool)
        ensures
            ok == self.is_valid(),
    {
        1 <= self.s && self.s <= MAX_EDGE && power_of_two(self.s) && 0 <= self.chunk_radius && 1
            <= self.vertical_divisor && 0 <= self.chunks_per_frame && 1 <= self.n_workers
    }

    /// Radius of the working set along the vertical axis.
    pub fn vertical_chunk_radius(&self) -> (r: i32)
        requires
            self.is_valid(),
        ensures
            r == self.vertical_radius(),
            0 <= r <= self.chunk_radius,
    {
        let r: i32 = self.chunk_radius / self.vertical_divisor;
        proof {
            let a = self.chunk_radius as int;
            let d = self.vertical_divisor as int;
            assert(0 <= a / d <= a) by (nonlinear_arith)
                requires
                    0 <= a,
                    1 <= d,
            ;
        }
        r
    }
}

/// Whether `n` is 1, 2, 4, 8 and so on.
pub open spec fn is_power_of_two(n: int) -> bool
    decreases n,
{
    if n <= 0 {
        false
    } else if n == 1 {
        true
    } else {
        n % 2 == 0 && is_power_of_two(n / 2)
    }
}

/// Doubling a power of two gives a power of two.
pub proof fn lemma_power_of_two_step(n: int)
    requires
        is_power_of_two(n),
    ensures
        is_power_of_two(2 * n),
{
    assert(n >= 1);
    assert((2 * n) / 2 == n);
    assert((2 * n) % 2 == 0);
}

/// Tells whether `n` is a power of two.
pub fn power_of_two(n: usize) -> (r: bool)
    ensures
        r == is_power_of_two(n as int),
{
    if n == 0 {
        return false;
    }
    let mut m: usize = n;
    while m % 2 == 0
        invariant
            1 <= m <= n,
            is_power_of_two(m as int) == is_power_of_two(n as int),
        decreases m,
    {
        m = m / 2;
    }
    m == 1
}

} // verus!
