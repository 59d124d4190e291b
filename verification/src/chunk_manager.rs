//! Chunk coordinates and the bookkeeping of the working set: which chunks are
//! live, which are being generated, which must go and which must be asked
//! for as the observer moves.

use crate::chunk::Chunk;
use crate::mesh::{earlier, Pass};
use crate::settings::Settings;
use std::collections::HashMap;
use std::collections::HashSet;
use vstd::prelude::*;
use vstd::std_specs::hash::spec_keys_iter;
use vstd::std_specs::iter::IteratorSpec;

verus! {

/// The position of a chunk in units of chunks.
#[derive(Debug, Copy, Clone, Eq, PartialEq, Hash, Structural)]
pub struct ChunkCoordinates {
    pub x: i32,
    pub y: i32,
    pub z: i32,
}

impl ChunkCoordinates {
    /// The number a coordinate is filed under: its three parts, each moved
    /// up by 2^31, as the digits of a number to the base 2^32.
    pub open spec fn spec_key(self) -> u128 {
        ((self.x + 0x8000_0000) * 0x1_0000_0000_0000_0000 + (self.y + 0x8000_0000) * 0x1_0000_0000
            + (self.z + 0x8000_0000)) as u128
    }

    /// The three parts as integers.
    pub open spec fn triple(self) -> (int, int, int) {
        (self.x as int, self.y as int, self.z as int)
    }

    /// The world position of the middle of the chunk, for an edge of `s`
    /// cells (rounded down where `s` is odd).
    pub open spec fn spec_center(self, s: int) -> (int, int, int) {
        (self.x * s + s / 2, self.y * s + s / 2, self.z * s + s / 2)
    }

    /// The world position of corner `n` (0 to 7) of the chunk, for an edge
    /// of `s` cells: the corner lies `s` further along x where `n` is 4 or
    /// more, along y where `n % 4` is 2 or more, along z where `n` is odd.
    pub open spec fn spec_corner(self, s: int, n: int) -> (int, int, int) {
        (
            self.x * s + if n >= 4 {
                s
            } else {
                0
            },
            self.y * s + if n % 4 >= 2 {
                s
            } else {
                0
            },
            self.z * s + if n % 2 == 1 {
                s
            } else {
                0
            },
        )
    }

    /// The chunk that holds the cell at `pos`, for an edge of `s` cells:
    /// each part of the position divided by `s` and rounded down, and kept
    /// within the range of a coordinate.
    pub fn containing_world_pos(pos: (i64, i64, i64), s: usize) -> (cc: ChunkCoordinates)
        requires
            1 <= s,
        ensures
            cc.x == bounded(pos.0 as int / s as int),
            cc.y == bounded(pos.1 as int / s as int),
            cc.z == bounded(pos.2 as int / s as int),
    {
        ChunkCoordinates {
            x: floor_div(pos.0, s),
            y: floor_div(pos.1, s),
            z: floor_div(pos.2, s),
        }
    }

    /// The world position of the middle of the chunk.
    pub fn center(&self, s: usize) -> (c: (i64, i64, i64))
        requires
            s <= 0x7fff_ffff,
        ensures
            (c.0 as int, c.1 as int, c.2 as int) == self.spec_center(s as int),
    {
        let edge: i64 = s as i64;
        let half: i64 = edge / 2;
        proof {
            let (x, y, z, e) = (self.x as int, self.y as int, self.z as int, edge as int);
            assert(-0x4000_0000_0000_0000 <= x * e <= 0x4000_0000_0000_0000
                && -0x4000_0000_0000_0000 <= y * e <= 0x4000_0000_0000_0000
                && -0x4000_0000_0000_0000 <= z * e <= 0x4000_0000_0000_0000) by (nonlinear_arith)
                requires
                    0 <= e <= 0x7fff_ffff,
                    -0x8000_0000 <= x < 0x8000_0000,
                    -0x8000_0000 <= y < 0x8000_0000,
                    -0x8000_0000 <= z < 0x8000_0000,
            ;
        }
        (
            self.x as i64 * edge + half,
            self.y as i64 * edge + half,
            self.z as i64 * edge + half,
        )
    }

    /// The world positions of the eight corners of the chunk.
    pub fn corners(&self, s: usize) -> (c: [(i64, i64, i64); 8])
        requires
            s <= 0x7fff_ffff,
        ensures
            forall|n: int|
                0 <= n < 8 ==> ((#[trigger] c[n]).0 as int, c[n].1 as int, c[n].2 as int)
                    == self.spec_corner(s as int, n),
    {
        let edge: i64 = s as i64;
        proof {
            let (x, y, z, e) = (self.x as int, self.y as int, self.z as int, edge as int);
            assert(-0x4000_0000_0000_0000 <= x * e <= 0x4000_0000_0000_0000
                && -0x4000_0000_0000_0000 <= y * e <= 0x4000_0000_0000_0000
                && -0x4000_0000_0000_0000 <= z * e <= 0x4000_0000_0000_0000) by (nonlinear_arith)
                requires
                    0 <= e <= 0x7fff_ffff,
                    -0x8000_0000 <= x < 0x8000_0000,
                    -0x8000_0000 <= y < 0x8000_0000,
                    -0x8000_0000 <= z < 0x8000_0000,
            ;
        }
        let x: i64 = self.x as i64 * edge;
        let y: i64 = self.y as i64 * edge;
        let z: i64 = self.z as i64 * edge;
        [
            (x, y, z),
            (x, y, z + edge),
            (x, y + edge, z),
            (x, y + edge, z + edge),
            (x + edge, y, z),
            (x + edge, y, z + edge),
            (x + edge, y + edge, z),
            (x + edge, y + edge, z + edge),
        ]
    }

    /// The number the coordinate is filed under.
    pub fn key(&self) -> (k: u128)
        ensures
            k == self.spec_key(),
    {
        let x: u128 = (self.x as i64 + 0x8000_0000) as u128;
        let y: u128 = (self.y as i64 + 0x8000_0000) as u128;
        let z: u128 = (self.z as i64 + 0x8000_0000) as u128;
        x * 0x1_0000_0000_0000_0000 + y * 0x1_0000_0000 + z
    }
}

/// The nearest value to `v` that a coordinate can have.
pub open spec fn bounded(v: int) -> int {
    if v < -0x8000_0000 {
        -0x8000_0000
    } else if v > 0x7fff_ffff {
        0x7fff_ffff
    } else {
        v
    }
}

/// `v` divided by `s` and rounded down, kept within the range of a
/// coordinate.
fn floor_div(v: i64, s: usize) -> (q: i32)
    requires
        1 <= s,
    ensures
        q == bounded(v as int / s as int),
{
    let d: u64 = s as u64;
    if v >= 0 {
        let q: u64 = (v as u64) / d;
        if q > 0x7fff_ffff {
            0x7fff_ffff
        } else {
            q as i32
        }
    } else {
        // For a negative `v` the quotient rounded down is minus the
        // quotient of `-v` rounded up.
        let up: u64 = ((-(v + 1)) as u64) / d + 1;
        proof {
            let (vi, di) = (v as int, d as int);
            let m = -(vi + 1);
            let t = m / di;
            assert(0 <= m - t * di < di) by (nonlinear_arith)
                requires
                    t == m / di,
                    di > 0,
                    m >= 0,
            ;
            let r = di - 1 - (m - t * di);
            assert(vi == (-(t + 1)) * di + r) by (nonlinear_arith)
                requires
                    m == -(vi + 1),
                    r == di - 1 - (m - t * di),
            ;
            vstd::arithmetic::div_mod::lemma_fundamental_div_mod_converse(vi, di, -(t + 1), r);
        }
        if up > 0x8000_0000 {
            -0x8000_0000
        } else {
            (-(up as i64)) as i32
        }
    }
}

/// Different coordinates are filed under different numbers.
pub proof fn lemma_key_injective(a: ChunkCoordinates, b: ChunkCoordinates)
    requires
        a.spec_key() == b.spec_key(),
    ensures
        a == b,
{
    let (a0, a1, a2) = (a.x + 0x8000_0000, a.y + 0x8000_0000, a.z + 0x8000_0000);
    let (b0, b1, b2) = (b.x + 0x8000_0000, b.y + 0x8000_0000, b.z + 0x8000_0000);
    let low_a = a1 * 0x1_0000_0000 + a2;
    let low_b = b1 * 0x1_0000_0000 + b2;
    assert(0 <= low_a < 0x1_0000_0000_0000_0000);
    assert(0 <= low_b < 0x1_0000_0000_0000_0000);
    assert(a.spec_key() == a0 * 0x1_0000_0000_0000_0000 + low_a);
    assert(b.spec_key() == b0 * 0x1_0000_0000_0000_0000 + low_b);
    if a0 < b0 {
        assert((a0 + 1) * 0x1_0000_0000_0000_0000 <= b0 * 0x1_0000_0000_0000_0000);
        assert(false);
    }
    if b0 < a0 {
        assert((b0 + 1) * 0x1_0000_0000_0000_0000 <= a0 * 0x1_0000_0000_0000_0000);
        assert(false);
    }
    assert(low_a == low_b);
    if a1 < b1 {
        assert((a1 + 1) * 0x1_0000_0000 <= b1 * 0x1_0000_0000);
        assert(false);
    }
    if b1 < a1 {
        assert((b1 + 1) * 0x1_0000_0000 <= a1 * 0x1_0000_0000);
        assert(false);
    }
}

/// Whether the chunk at `cc` belongs to the working set of an observer in the
/// chunk at `center`: no further from it than the radius along x and z, and
/// no further than the vertical radius along y.
pub open spec fn within(settings: Settings, center: ChunkCoordinates, cc: ChunkCoordinates) -> bool {
    let r = settings.chunk_radius as int;
    let v = settings.vertical_radius();
    &&& -r <= cc.x - center.x <= r
    &&& -v <= cc.y - center.y <= v
    &&& -r <= cc.z - center.z <= r
}

/// Tells whether the chunk at `cc` belongs to the working set of an observer
/// in the chunk at `center`.
pub fn in_range(settings: &Settings, center: ChunkCoordinates, cc: ChunkCoordinates) -> (r: bool)
    requires
        settings.is_valid(),
    ensures
        r == within(*settings, center, cc),
{
    let r: i64 = settings.chunk_radius as i64;
    let v: i64 = settings.vertical_chunk_radius() as i64;
    let dx: i64 = cc.x as i64 - center.x as i64;
    let dy: i64 = cc.y as i64 - center.y as i64;
    let dz: i64 = cc.z as i64 - center.z as i64;
    -r <= dx && dx <= r && -v <= dy && dy <= v && -r <= dz && dz <= r
}

/// What one frame asks of the world around the manager: the chunks that left
/// the working set, whose render resources are to be released, and the
/// coordinates whose chunks are to be generated.
pub struct FramePlan {
    pub evicted: Vec<Chunk>,
    pub jobs: Vec<ChunkCoordinates>,
}

/// The working set: the chunks that are live, and the coordinates whose
/// chunks are being generated.
pub struct ChunkManager {
    chunk_map: HashMap<u128, Chunk>,
    loading: HashSet<u128>,
    settings: Settings,
    taken: i32,
}

/// Why a finished chunk was not taken into the live set. Either way the
/// chunk is handed back.
pub enum Refusal {
    /// Its coordinate is live already.
    Live(Chunk),
    /// The frame has taken as many chunks as it may.
    BudgetSpent(Chunk),
}

impl ChunkManager {
    /// The live chunks by their coordinates.
    pub closed spec fn live(&self) -> Map<ChunkCoordinates, Chunk> {
        Map::new(
            |cc: ChunkCoordinates| self.chunk_map@.contains_key(cc.spec_key()),
            |cc: ChunkCoordinates| self.chunk_map@[cc.spec_key()],
        )
    }

    /// The coordinates whose chunks are being generated.
    pub closed spec fn in_flight(&self) -> Set<ChunkCoordinates> {
        Set::new(|cc: ChunkCoordinates| self.loading@.contains(cc.spec_key()))
    }

    /// The parameters the manager was made with.
    pub closed spec fn parameters(&self) -> Settings {
        self.settings
    }

    /// The number of finished chunks taken into the live set in this frame.
    pub closed spec fn taken_this_frame(&self) -> int {
        self.taken as int
    }

    /// Whether the bookkeeping is sound: the parameters are valid, every live
    /// chunk is filed under its own coordinate and is well formed, no
    /// coordinate is both live and being generated, and the frame has taken
    /// no more chunks than it may.
    pub closed spec fn wf(&self) -> bool {
        &&& self.settings.is_valid()
        &&& 0 <= self.taken <= self.settings.chunks_per_frame
        &&& forall|k: u128| #[trigger]
            self.chunk_map@.contains_key(k) ==> self.chunk_map@[k].wf()
                && self.chunk_map@[k].data.cc.spec_key() == k
        &&& forall|k: u128| #[trigger] self.loading@.contains(k) ==> !self.chunk_map@.contains_key(k)
    }

    /// A manager with nothing live and nothing being generated.
    pub fn new(settings: Settings) -> (m: ChunkManager)
        requires
            settings.is_valid(),
        ensures
            m.wf(),
            m.parameters() == settings,
            m.live() == Map::<ChunkCoordinates, Chunk>::empty(),
            m.in_flight() == Set::<ChunkCoordinates>::empty(),
            m.taken_this_frame() == 0,
    {
        let m = ChunkManager {
            chunk_map: HashMap::new(),
            loading: HashSet::new(),
            settings,
            taken: 0,
        };
        assert(m.live() =~= Map::<ChunkCoordinates, Chunk>::empty());
        assert(m.in_flight() =~= Set::<ChunkCoordinates>::empty());
        m
    }

    /// The parameters the manager was made with.
    pub fn settings(&self) -> (s: Settings)
        ensures
            s == self.parameters(),
    {
        self.settings
    }

    /// The number of live chunks.
    pub fn len(&self) -> (n: usize)
        requires
            self.wf(),
        ensures
            n == self.live().dom().len(),
    {
        proof {
            self.lemma_live_dom();
        }
        self.chunk_map.len()
    }

    /// The live chunk at `cc`, if there is one.
    pub fn chunk(&self, cc: ChunkCoordinates) -> (r: Option<&Chunk>)
        requires
            self.wf(),
        ensures
            r is Some <==> self.live().contains_key(cc),
            r matches Some(c) ==> *c == self.live()[cc],
    {
        let k = cc.key();
        self.chunk_map.get(&k)
    }

    /// Tells whether the chunk at `cc` is being generated.
    pub fn is_loading(&self, cc: ChunkCoordinates) -> (r: bool)
        requires
            self.wf(),
        ensures
            r == self.in_flight().contains(cc),
    {
        let k = cc.key();
        self.loading.contains(&k)
    }

    /// The number of finished chunks that a frame may take into the live
    /// set.
    pub fn budget(&self) -> (n: i32)
        ensures
            n == self.parameters().chunks_per_frame,
    {
        self.settings.chunks_per_frame
    }

    /// Tells whether this frame may take another finished chunk.
    pub fn may_reap(&self) -> (r: bool)
        ensures
            r == (self.taken_this_frame() < self.parameters().chunks_per_frame),
    {
        self.taken < self.settings.chunks_per_frame
    }

    /// The live coordinates are as many as the entries of the map.
    proof fn lemma_live_dom(&self)
        requires
            self.wf(),
        ensures
            self.live().dom().finite(),
            self.live().dom().len() == self.chunk_map@.dom().len(),
    {
        let keys = self.chunk_map@.dom();
        let coords = self.live().dom();
        let f = |k: u128| self.chunk_map@[k].data.cc;
        assert(vstd::relations::injective_on(f, keys));
        assert forall|cc: ChunkCoordinates| keys.map(f).contains(cc) == coords.contains(cc) by {
            if coords.contains(cc) {
                let k = cc.spec_key();
                assert(keys.contains(k));
                lemma_key_injective(f(k), cc);
            }
        }
        assert(keys.map(f) =~= coords);
        vstd::set_lib::lemma_map_size(keys, coords, f);
    }

    /// Gives up on the chunk at `cc`: it is no longer being generated, so
    /// that the next frame asks for it again where it is still wanted.
    /// Nothing changes where it was not being generated.
    pub fn abandon(&mut self, cc: ChunkCoordinates)
        requires
            old(self).wf(),
        ensures
            final(self).wf(),
            final(self).parameters() == old(self).parameters(),
            final(self).live() == old(self).live(),
            final(self).in_flight() == old(self).in_flight().remove(cc),
            final(self).taken_this_frame() == old(self).taken_this_frame(),
    {
        let k = cc.key();
        self.loading.remove(&k);
        proof {
            assert forall|c: ChunkCoordinates| c.spec_key() == k implies c == cc by {
                lemma_key_injective(c, cc);
            }
            assert(self.live() =~= old(self).live());
            assert(self.in_flight() =~= old(self).in_flight().remove(cc));
        }
    }

    /// Takes a finished chunk into the live set, where its coordinate is not
    /// live already and the frame has not yet taken as many chunks as it may.
    /// Its coordinate is no longer being generated afterwards. Else the
    /// chunk is handed back and nothing changes. A chunk that nobody is
    /// waiting for, or that has left the working set while it was generated,
    /// is taken all the same and leaves with the next frame.
    pub fn reap(&mut self, chunk: Chunk) -> (r: Result<(), Refusal>)
        requires
            old(self).wf(),
            chunk.wf(),
        ensures
            final(self).wf(),
            final(self).parameters() == old(self).parameters(),
            match r {
                Ok(_) => {
                    &&& !old(self).live().contains_key(chunk.data.cc)
                    &&& old(self).taken_this_frame() < old(self).parameters().chunks_per_frame
                    &&& final(self).live() == old(self).live().insert(chunk.data.cc, chunk)
                    &&& final(self).in_flight() == old(self).in_flight().remove(chunk.data.cc)
                    &&& final(self).taken_this_frame() == old(self).taken_this_frame() + 1
                },
                Err(refusal) => {
                    &&& final(self).live() == old(self).live()
                    &&& final(self).in_flight() == old(self).in_flight()
                    &&& final(self).taken_this_frame() == old(self).taken_this_frame()
                    &&& match refusal {
                        Refusal::Live(c) => c == chunk && old(self).live().contains_key(
                            chunk.data.cc,
                        ),
                        Refusal::BudgetSpent(c) => c == chunk && !old(self).live().contains_key(
                            chunk.data.cc,
                        ) && old(self).taken_this_frame() >= old(self).parameters().chunks_per_frame,
                    }
                },
            },
    {
        let cc = chunk.data.cc;
        let k = cc.key();
        if self.chunk_map.contains_key(&k) {
            return Err(Refusal::Live(chunk));
        }
        if self.taken >= self.settings.chunks_per_frame {
            return Err(Refusal::BudgetSpent(chunk));
        }
        self.taken = self.taken + 1;
        self.loading.remove(&k);
        self.chunk_map.insert(k, chunk);
        proof {
            assert forall|c: ChunkCoordinates| c.spec_key() == k implies c == cc by {
                lemma_key_injective(c, cc);
            }
            assert(self.live() =~= old(self).live().insert(cc, chunk));
            assert(self.in_flight() =~= old(self).in_flight().remove(cc));
        }
        Ok(())
    }
}

/// Whether `evicted` lists, each exactly once, the chunks of `before` whose
/// coordinates lie outside the working set round `center`.
pub open spec fn released_once(
    before: Map<ChunkCoordinates, Chunk>,
    settings: Settings,
    center: ChunkCoordinates,
    evicted: Seq<Chunk>,
) -> bool {
    &&& forall|n: int|
        0 <= n < evicted.len() ==> before.contains_key((#[trigger] evicted[n]).data.cc)
            && before[evicted[n].data.cc] == evicted[n] && !within(
            settings,
            center,
            evicted[n].data.cc,
        )
    &&& forall|n: int, m: int|
        0 <= n < m < evicted.len() ==> (#[trigger] evicted[n]).data.cc != (
        #[trigger] evicted[m]).data.cc
    &&& forall|cc: ChunkCoordinates| #[trigger]
        before.contains_key(cc) && !within(settings, center, cc) ==> exists|n: int|
            0 <= n < evicted.len() && (#[trigger] evicted[n]).data.cc == cc
}

/// Whether `jobs` lists, in the order of x, then y, then z, the coordinates
/// of the working set round `center` that are neither live nor being
/// generated.
pub open spec fn requested(
    live: Set<ChunkCoordinates>,
    in_flight: Set<ChunkCoordinates>,
    settings: Settings,
    center: ChunkCoordinates,
    jobs: Seq<ChunkCoordinates>,
) -> bool {
    &&& forall|n: int|
        0 <= n < jobs.len() ==> within(settings, center, #[trigger] jobs[n]) && !live.contains(
            jobs[n],
        ) && !in_flight.contains(jobs[n])
    &&& forall|n: int, m: int|
        0 <= n < m < jobs.len() ==> earlier((#[trigger] jobs[n]).triple(), (#[trigger] jobs[m]).triple())
    &&& forall|cc: ChunkCoordinates|
        #![trigger live.contains(cc)]
        #![trigger in_flight.contains(cc)]
        within(settings, center, cc) && !live.contains(cc) && !in_flight.contains(cc) ==> exists|
            n: int,
        |
            0 <= n < jobs.len() && #[trigger] jobs[n] == cc
}

impl ChunkManager {
    /// The numbers the live chunks are filed under.
    fn live_keys(&self) -> (v: Vec<u128>)
        ensures
            v@.to_set() == self.chunk_map@.dom(),
            v@.no_duplicates(),
    {
        let mut v: Vec<u128> = Vec::new();
        for k in it: self.chunk_map.keys()
            invariant
                it.seq() == spec_keys_iter(&self.chunk_map).remaining(),
                v@.len() == it.index(),
                forall|n: int| 0 <= n < v@.len() ==> v@[n] == *it.seq()[n],
        {
            v.push(*k);
        }
        assert(v@ == spec_keys_iter(&self.chunk_map).remaining().unref());
        v
    }

    /// Removes the live chunks that lie outside the working set round
    /// `center` and hands them out.
    fn evict(&mut self, center: ChunkCoordinates) -> (evicted: Vec<Chunk>)
        requires
            old(self).wf(),
        ensures
            final(self).wf(),
            final(self).settings == old(self).settings,
            final(self).taken == old(self).taken,
            final(self).loading@ == old(self).loading@,
            forall|k: u128| #[trigger]
                final(self).chunk_map@.contains_key(k) <==> old(self).chunk_map@.contains_key(k)
                    && within(old(self).settings, center, old(self).chunk_map@[k].data.cc),
            forall|k: u128| #[trigger]
                final(self).chunk_map@.contains_key(k) ==> final(self).chunk_map@[k] == old(self).chunk_map@[k],
            released_once(old(self).live(), old(self).settings, center, evicted@),
    {
        let keys = self.live_keys();
        let settings = self.settings;
        let ghost before = self.chunk_map@;
        let mut evicted: Vec<Chunk> = Vec::new();
        let mut idx: usize = 0;
        while idx < keys.len()
            invariant
                old(self).wf(),
                before == old(self).chunk_map@,
                settings == old(self).settings,
                self.settings == settings,
                self.taken == old(self).taken,
                self.loading@ == old(self).loading@,
                keys@.to_set() == before.dom(),
                keys@.no_duplicates(),
                idx <= keys@.len(),
                forall|k: u128| #[trigger]
                    self.chunk_map@.contains_key(k) ==> before.contains_key(k) && self.chunk_map@[k]
                        == before[k],
                forall|n: int|
                    0 <= n < keys@.len() ==> (self.chunk_map@.contains_key(#[trigger] keys@[n]) <==> n
                        >= idx || within(settings, center, before[keys@[n]].data.cc)),
                forall|n: int|
                    0 <= n < evicted@.len() ==> before.contains_key(
                        (#[trigger] evicted@[n]).data.cc.spec_key(),
                    ) && before[evicted@[n].data.cc.spec_key()] == evicted@[n] && !within(
                        settings,
                        center,
                        evicted@[n].data.cc,
                    ) && !self.chunk_map@.contains_key(evicted@[n].data.cc.spec_key()),
                forall|n: int, m: int|
                    0 <= n < m < evicted@.len() ==> (#[trigger] evicted@[n]).data.cc != (
                    #[trigger] evicted@[m]).data.cc,
                forall|n: int|
                    0 <= n < idx && !within(settings, center, before[#[trigger] keys@[n]].data.cc)
                        ==> exists|m: int|
                        0 <= m < evicted@.len() && (#[trigger] evicted@[m]).data.cc
                            == before[keys@[n]].data.cc,
            decreases keys@.len() - idx,
        {
            let k = keys[idx];
            assert(keys@.to_set().contains(keys@[idx as int]));
            assert(before.contains_key(k));
            let ghost map_before = self.chunk_map@;
            let ghost evicted_before = evicted@;
            let keep = match self.chunk_map.get(&k) {
                Some(chunk) => in_range(&settings, center, chunk.data.cc),
                None => true,
            };
            if !keep {
                match self.chunk_map.remove(&k) {
                    Some(chunk) => {
                        evicted.push(chunk);
                        proof {
                            assert(chunk == before[k]);
                            assert(chunk.data.cc.spec_key() == k);
                            assert forall|n: int, m: int|
                                0 <= n < m < evicted@.len() implies (#[trigger] evicted@[n]).data.cc
                                != (#[trigger] evicted@[m]).data.cc by {
                                if m == evicted@.len() - 1 {
                                    assert(evicted@[n] == evicted_before[n]);
                                    assert(!map_before.contains_key(
                                        evicted_before[n].data.cc.spec_key(),
                                    ));
                                }
                            }
                            assert forall|n: int|
                                0 <= n < idx + 1 && !within(
                                    settings,
                                    center,
                                    before[#[trigger] keys@[n]].data.cc,
                                ) implies exists|m: int|
                                0 <= m < evicted@.len() && (#[trigger] evicted@[m]).data.cc
                                    == before[keys@[n]].data.cc by {
                                if n < idx {
                                    let m = choose|m: int|
                                        0 <= m < evicted_before.len() && (
                                        #[trigger] evicted_before[m]).data.cc
                                            == before[keys@[n]].data.cc;
                                    assert(evicted@[m] == evicted_before[m]);
                                } else {
                                    assert(evicted@[evicted@.len() - 1] == before[k]);
                                }
                            }
                        }
                    },
                    None => {},
                }
            }
            idx = idx + 1;
        }
        proof {
            assert forall|k: u128| #[trigger]
                self.chunk_map@.contains_key(k) <==> before.contains_key(k) && within(
                    settings,
                    center,
                    before[k].data.cc,
                ) by {
                if before.contains_key(k) {
                    assert(keys@.to_set().contains(k));
                    let n = choose|n: int| 0 <= n < keys@.len() && keys@[n] == k;
                    assert(self.chunk_map@.contains_key(keys@[n]) <==> within(
                        settings,
                        center,
                        before[keys@[n]].data.cc,
                    ));
                }
            }
            let old_live = old(self).live();
            assert forall|n: int| 0 <= n < evicted@.len() implies old_live.contains_key(
                (#[trigger] evicted@[n]).data.cc,
            ) && old_live[evicted@[n].data.cc] == evicted@[n] && !within(
                settings,
                center,
                evicted@[n].data.cc,
            ) by {}
            assert forall|cc: ChunkCoordinates| #[trigger]
                old_live.contains_key(cc) && !within(settings, center, cc) implies exists|n: int|
                0 <= n < evicted@.len() && (#[trigger] evicted@[n]).data.cc == cc by {
                let k = cc.spec_key();
                assert(before.contains_key(k));
                lemma_key_injective(before[k].data.cc, cc);
                assert(keys@.to_set().contains(k));
                let n = choose|n: int| 0 <= n < keys@.len() && keys@[n] == k;
                assert(!within(settings, center, before[keys@[n]].data.cc));
            }
        }
        evicted
    }
}

/// The lowest and the highest coordinate no further than `r` from `c`.
fn reach(c: i32, r: i32) -> (b: (i64, i64))
    requires
        0 <= r,
    ensures
        -0x8000_0000 <= b.0 <= c <= b.1 < 0x8000_0000,
        b.0 == if c - r < -0x8000_0000 {
            -0x8000_0000
        } else {
            c - r
        },
        b.1 == if c + r > 0x7fff_ffff {
            0x7fff_ffff
        } else {
            c + r
        },
{
    let lo: i64 = c as i64 - r as i64;
    let hi: i64 = c as i64 + r as i64;
    (
        if lo < -0x8000_0000 {
            -0x8000_0000
        } else {
            lo
        },
        if hi > 0x7fff_ffff {
            0x7fff_ffff
        } else {
            hi
        },
    )
}

impl ChunkManager {
    /// Marks the coordinates of the working set round `center` that are
    /// neither live nor being generated as being generated, and lists them.
    fn request(&mut self, center: ChunkCoordinates) -> (jobs: Vec<ChunkCoordinates>)
        requires
            old(self).wf(),
        ensures
            final(self).wf(),
            final(self).settings == old(self).settings,
            final(self).taken == old(self).taken,
            final(self).chunk_map@ == old(self).chunk_map@,
            requested(
                old(self).live().dom(),
                old(self).in_flight(),
                old(self).settings,
                center,
                jobs@,
            ),
            forall|k: u128| #[trigger]
                final(self).loading@.contains(k) <==> old(self).loading@.contains(k) || exists|
                    n: int,
                |
                    0 <= n < jobs@.len() && (#[trigger] jobs@[n]).spec_key() == k,
    {
        let settings = self.settings;
        let ghost live = old(self).live().dom();
        let ghost flying = old(self).in_flight();
        let (lo_x, hi_x) = reach(center.x, settings.chunk_radius);
        let (lo_y, hi_y) = reach(center.y, settings.vertical_chunk_radius());
        let (lo_z, hi_z) = reach(center.z, settings.chunk_radius);
        let mut jobs: Vec<ChunkCoordinates> = Vec::new();
        let mut x: i64 = lo_x;
        while x <= hi_x
            invariant
                old(self).wf(),
                self.wf(),
                settings == old(self).settings,
                self.settings == settings,
                self.taken == old(self).taken,
                self.chunk_map@ == old(self).chunk_map@,
                live == old(self).live().dom(),
                flying == old(self).in_flight(),
                -0x8000_0000 <= lo_x <= x <= hi_x + 1 <= 0x8000_0000,
                -0x8000_0000 <= lo_y <= hi_y < 0x8000_0000,
                -0x8000_0000 <= lo_z <= hi_z < 0x8000_0000,
                forall|cc: ChunkCoordinates|
                    within(settings, center, cc) <==> lo_x <= cc.x <= hi_x && lo_y <= cc.y <= hi_y
                        && lo_z <= cc.z <= hi_z,
                visited(
                    live,
                    flying,
                    settings,
                    center,
                    jobs@,
                    (x as int, lo_y as int, lo_z as int),
                ),
                forall|k: u128| #[trigger]
                    self.loading@.contains(k) <==> old(self).loading@.contains(k) || exists|n: int|
                        0 <= n < jobs@.len() && (#[trigger] jobs@[n]).spec_key() == k,
            decreases hi_x + 1 - x,
        {
            let mut y: i64 = lo_y;
            while y <= hi_y
                invariant
                    old(self).wf(),
                    self.wf(),
                    settings == old(self).settings,
                    self.settings == settings,
                    self.taken == old(self).taken,
                    self.chunk_map@ == old(self).chunk_map@,
                    live == old(self).live().dom(),
                    flying == old(self).in_flight(),
                    -0x8000_0000 <= lo_x <= x <= hi_x < 0x8000_0000,
                    -0x8000_0000 <= lo_y <= y <= hi_y + 1 <= 0x8000_0000,
                    -0x8000_0000 <= lo_z <= hi_z < 0x8000_0000,
                    forall|cc: ChunkCoordinates|
                        within(settings, center, cc) <==> lo_x <= cc.x <= hi_x && lo_y <= cc.y
                            <= hi_y && lo_z <= cc.z <= hi_z,
                    visited(
                        live,
                        flying,
                        settings,
                        center,
                        jobs@,
                        (x as int, y as int, lo_z as int),
                    ),
                    forall|k: u128| #[trigger]
                        self.loading@.contains(k) <==> old(self).loading@.contains(k) || exists|
                            n: int,
                        |
                            0 <= n < jobs@.len() && (#[trigger] jobs@[n]).spec_key() == k,
                decreases hi_y + 1 - y,
            {
                let mut z: i64 = lo_z;
                while z <= hi_z
                    invariant
                        old(self).wf(),
                        self.wf(),
                        settings == old(self).settings,
                        self.settings == settings,
                        self.taken == old(self).taken,
                        self.chunk_map@ == old(self).chunk_map@,
                        live == old(self).live().dom(),
                        flying == old(self).in_flight(),
                        -0x8000_0000 <= lo_x <= x <= hi_x < 0x8000_0000,
                        -0x8000_0000 <= lo_y <= y <= hi_y < 0x8000_0000,
                        -0x8000_0000 <= lo_z <= z <= hi_z + 1 <= 0x8000_0000,
                        forall|cc: ChunkCoordinates|
                            within(settings, center, cc) <==> lo_x <= cc.x <= hi_x && lo_y <= cc.y
                                <= hi_y && lo_z <= cc.z <= hi_z,
                        visited(
                            live,
                            flying,
                            settings,
                            center,
                            jobs@,
                            (x as int, y as int, z as int),
                        ),
                        forall|k: u128| #[trigger]
                            self.loading@.contains(k) <==> old(self).loading@.contains(k) || exists|
                                n: int,
                            |
                                0 <= n < jobs@.len() && (#[trigger] jobs@[n]).spec_key() == k,
                    decreases hi_z + 1 - z,
                {
                    let cc = ChunkCoordinates { x: x as i32, y: y as i32, z: z as i32 };
                    let k = cc.key();
                    let ghost jobs_before = jobs@;
                    let ghost loading_before = self.loading@;
                    let missing = !self.chunk_map.contains_key(&k) && !self.loading.contains(&k);
                    if missing {
                        self.loading.insert(k);
                        jobs.push(cc);
                    }
                    proof {
                        assert forall|c: ChunkCoordinates| c.spec_key() == k implies c == cc by {
                            lemma_key_injective(c, cc);
                        }
                        assert(live.contains(cc) <==> old(self).chunk_map@.contains_key(k));
                        assert(flying.contains(cc) <==> old(self).loading@.contains(k));
                        let now = (x as int, y as int, z + 1);
                        if missing {
                            assert(jobs@[jobs@.len() - 1] == cc);
                            assert forall|n: int| 0 <= n < jobs_before.len() implies jobs@[n]
                                == jobs_before[n] by {}
                            assert(!loading_before.contains(k));
                            assert(!flying.contains(cc));
                            assert forall|key: u128| #[trigger]
                                self.loading@.contains(key) <==> old(self).loading@.contains(key)
                                    || exists|n: int|
                                    0 <= n < jobs@.len() && (#[trigger] jobs@[n]).spec_key()
                                        == key by {
                                if key == k {
                                    assert(jobs@[jobs@.len() - 1].spec_key() == k);
                                } else if loading_before.contains(key) && !old(self).loading@.contains(key) {
                                    let n = choose|n: int|
                                        0 <= n < jobs_before.len() && (
                                        #[trigger] jobs_before[n]).spec_key() == key;
                                    assert(jobs@[n].spec_key() == key);
                                }
                            }
                            assert forall|c: ChunkCoordinates|
                                #![trigger live.contains(c)]
                                #![trigger flying.contains(c)]
                                within(settings, center, c) && earlier(c.triple(), now)
                                    && !live.contains(c) && !flying.contains(c) implies exists|
                                n: int,
                            |
                                0 <= n < jobs@.len() && #[trigger] jobs@[n] == c by {
                                if earlier(c.triple(), (x as int, y as int, z as int)) {
                                    let n = choose|n: int|
                                        0 <= n < jobs_before.len() && #[trigger] jobs_before[n]
                                            == c;
                                    assert(jobs@[n] == c);
                                } else {
                                    assert(c == cc);
                                }
                            }
                        } else {
                            assert forall|c: ChunkCoordinates|
                                #![trigger live.contains(c)]
                                #![trigger flying.contains(c)]
                                within(settings, center, c) && earlier(c.triple(), now)
                                    && !live.contains(c) && !flying.contains(c) implies exists|
                                n: int,
                            |
                                0 <= n < jobs@.len() && #[trigger] jobs@[n] == c by {
                                if earlier(c.triple(), (x as int, y as int, z as int)) {
                                } else {
                                    assert(c == cc);
                                    if loading_before.contains(k) {
                                        let n = choose|n: int|
                                            0 <= n < jobs_before.len() && (
                                            #[trigger] jobs_before[n]).spec_key() == k;
                                        lemma_key_injective(jobs_before[n], cc);
                                    }
                                }
                            }
                        }
                    }
                    z = z + 1;
                }
                y = y + 1;
            }
            x = x + 1;
        }
        jobs
    }

    /// Begins a frame with the observer in the chunk at `in_chunk`. The live
    /// chunks outside the working set round `in_chunk` leave the live set
    /// and are handed out, each once; the coordinates of the working set
    /// that are neither live nor being generated are marked as being
    /// generated and listed in the order of x, then y, then z. The frame
    /// has taken no finished chunk yet.
    pub fn treadmill(&mut self, in_chunk: ChunkCoordinates) -> (plan: FramePlan)
        requires
            old(self).wf(),
        ensures
            final(self).wf(),
            final(self).parameters() == old(self).parameters(),
            final(self).live() == old(self).live().restrict(
                Set::new(|cc: ChunkCoordinates| within(old(self).parameters(), in_chunk, cc)),
            ),
            released_once(old(self).live(), old(self).parameters(), in_chunk, plan.evicted@),
            requested(
                final(self).live().dom(),
                old(self).in_flight(),
                old(self).parameters(),
                in_chunk,
                plan.jobs@,
            ),
            final(self).in_flight() == old(self).in_flight().union(plan.jobs@.to_set()),
            final(self).taken_this_frame() == 0,
    {
        self.taken = 0;
        let evicted = self.evict(in_chunk);
        let ghost mid_flight = self.in_flight();
        let ghost mid_loading = self.loading@;
        assert(mid_flight == old(self).in_flight());
        let jobs = self.request(in_chunk);
        proof {
            let settings = old(self).settings;
            let kept = Set::new(|cc: ChunkCoordinates| within(settings, in_chunk, cc));
            assert forall|cc: ChunkCoordinates| #[trigger]
                self.live().contains_key(cc) <==> old(self).live().restrict(kept).contains_key(
                    cc,
                ) by {
                let k = cc.spec_key();
                if old(self).chunk_map@.contains_key(k) {
                    lemma_key_injective(old(self).chunk_map@[k].data.cc, cc);
                }
            }
            assert(self.live() =~= old(self).live().restrict(kept));
            assert forall|cc: ChunkCoordinates|
                self.in_flight().contains(cc) <==> old(self).in_flight().union(
                    jobs@.to_set(),
                ).contains(cc) by {
                let k = cc.spec_key();
                if jobs@.to_set().contains(cc) {
                    let n = choose|n: int| 0 <= n < jobs@.len() && jobs@[n] == cc;
                    assert(jobs@[n].spec_key() == k);
                }
                if self.loading@.contains(k) && !mid_loading.contains(k) {
                    let n = choose|n: int|
                        0 <= n < jobs@.len() && (#[trigger] jobs@[n]).spec_key() == k;
                    lemma_key_injective(jobs@[n], cc);
                    assert(jobs@.contains(cc));
                }
            }
            assert(self.in_flight() =~= old(self).in_flight().union(jobs@.to_set()));
        }
        FramePlan { evicted, jobs }
    }
}

/// Whether `jobs` lists, in order, the wanted coordinates among those that
/// come before `upto`.
pub open spec fn visited(
    live: Set<ChunkCoordinates>,
    in_flight: Set<ChunkCoordinates>,
    settings: Settings,
    center: ChunkCoordinates,
    jobs: Seq<ChunkCoordinates>,
    upto: (int, int, int),
) -> bool {
    &&& forall|n: int|
        0 <= n < jobs.len() ==> within(settings, center, #[trigger] jobs[n]) && !live.contains(
            jobs[n],
        ) && !in_flight.contains(jobs[n]) && earlier(jobs[n].triple(), upto)
    &&& forall|n: int, m: int|
        0 <= n < m < jobs.len() ==> earlier((#[trigger] jobs[n]).triple(), (#[trigger] jobs[m]).triple())
    &&& forall|cc: ChunkCoordinates|
        #![trigger live.contains(cc)]
        #![trigger in_flight.contains(cc)]
        within(settings, center, cc) && earlier(cc.triple(), upto) && !live.contains(cc)
            && !in_flight.contains(cc) ==> exists|n: int|
            0 <= n < jobs.len() && #[trigger] jobs[n] == cc
}

/// A chunk seen by the observer: its coordinate and its distance from the
/// observer as a number that grows with the distance.
#[derive(Debug, Copy, Clone, Eq, PartialEq, Structural)]
pub struct Sighting {
    pub cc: ChunkCoordinates,
    pub distance: u32,
}

/// One surface of one chunk to be drawn.
#[derive(Debug, Copy, Clone, Eq, PartialEq, Structural)]
pub struct DrawCall {
    pub cc: ChunkCoordinates,
    pub pass: Pass,
}

/// Whether `a` may stand before `b` in a list from near to far: `a` is
/// nearer, or as near with a coordinate that does not come after that of `b`.
pub open spec fn nearer_or_same(a: Sighting, b: Sighting) -> bool {
    a.distance < b.distance || (a.distance == b.distance && !earlier(b.cc.triple(), a.cc.triple()))
}

/// Whether `order` holds the sightings of `seen`, each as often as `seen`
/// does, from near to far.
pub open spec fn near_to_far(seen: Seq<Sighting>, order: Seq<Sighting>) -> bool {
    &&& order.to_multiset() == seen.to_multiset()
    &&& forall|n: int, m: int|
        0 <= n < m < order.len() ==> nearer_or_same(#[trigger] order[n], #[trigger] order[m])
}

/// Whether the chunk of a sighting is live and has a surface for the pass.
pub open spec fn drawn(live: Map<ChunkCoordinates, Chunk>, s: Sighting, pass: Pass) -> bool {
    live.contains_key(s.cc) && match pass {
        Pass::Opaque => live[s.cc].opaque_mesh is Some,
        Pass::Transparent => live[s.cc].transparent_mesh is Some,
    }
}

/// The calls of one pass for the first `n` sightings of `order`, in their
/// order: one for each sighting whose chunk is live and has a surface for
/// the pass.
pub open spec fn calls_of(
    live: Map<ChunkCoordinates, Chunk>,
    order: Seq<Sighting>,
    pass: Pass,
    n: int,
) -> Seq<DrawCall>
    decreases n,
{
    if n <= 0 {
        Seq::empty()
    } else {
        let before = calls_of(live, order, pass, n - 1);
        if drawn(live, order[n - 1], pass) {
            before.push(DrawCall { cc: order[n - 1].cc, pass })
        } else {
            before
        }
    }
}

/// The calls of a frame for sightings listed from near to far: the solid
/// surfaces from far to near, then the water surfaces from near to far.
pub open spec fn frame_calls(live: Map<ChunkCoordinates, Chunk>, order: Seq<Sighting>) -> Seq<
    DrawCall,
> {
    calls_of(live, order.reverse(), Pass::Opaque, order.len() as int) + calls_of(
        live,
        order,
        Pass::Transparent,
        order.len() as int,
    )
}

/// Sorts sightings from near to far with `sort_unstable_by_key` of slices,
/// by distance first and by x, y and z among sightings at one distance. The
/// contract claims what the standard library documents of the call: the
/// list holds the same sightings as before, in ascending order of the key,
/// and tuples of integers are ordered place by place.
#[verifier::external_body]
fn sort_near_to_far(sightings: &mut Vec<Sighting>)
    ensures
        near_to_far(old(sightings)@, final(sightings)@),
{
    sightings.sort_unstable_by_key(|s| (s.distance, s.cc.x, s.cc.y, s.cc.z));
}

impl ChunkManager {
    /// The coordinates of the live chunks, each once, in no particular
    /// order.
    pub fn coordinates(&self) -> (v: Vec<ChunkCoordinates>)
        requires
            self.wf(),
        ensures
            v@.to_set() == self.live().dom(),
            v@.no_duplicates(),
    {
        let keys = self.live_keys();
        let mut v: Vec<ChunkCoordinates> = Vec::new();
        let mut n: usize = 0;
        while n < keys.len()
            invariant
                self.wf(),
                keys@.to_set() == self.chunk_map@.dom(),
                keys@.no_duplicates(),
                n <= keys@.len(),
                v@.len() == n,
                forall|m: int| 0 <= m < n ==> (#[trigger] v@[m]).spec_key() == keys@[m],
            decreases keys@.len() - n,
        {
            assert(keys@.to_set().contains(keys@[n as int]));
            match self.chunk_map.get(&keys[n]) {
                Some(chunk) => {
                    v.push(chunk.data.cc);
                },
                None => {},
            }
            n = n + 1;
        }
        proof {
            assert forall|cc: ChunkCoordinates| v@.to_set().contains(cc) <==> self.live().dom().contains(
                cc,
            ) by {
                if v@.to_set().contains(cc) {
                    let m = choose|m: int| 0 <= m < v@.len() && v@[m] == cc;
                    assert(keys@.to_set().contains(keys@[m]));
                }
                if self.live().dom().contains(cc) {
                    assert(keys@.to_set().contains(cc.spec_key()));
                    let m = choose|m: int| 0 <= m < keys@.len() && keys@[m] == cc.spec_key();
                    lemma_key_injective(v@[m], cc);
                }
            }
            assert(v@.to_set() =~= self.live().dom());
        }
        v
    }

    /// Tells whether the chunk of a sighting is live and has a surface for
    /// the pass.
    fn draws(&self, s: &Sighting, pass: Pass) -> (r: bool)
        requires
            self.wf(),
        ensures
            r == drawn(self.live(), *s, pass),
    {
        match self.chunk(s.cc) {
            Some(chunk) => match pass {
                Pass::Opaque => chunk.opaque_mesh.is_some(),
                Pass::Transparent => chunk.transparent_mesh.is_some(),
            },
            None => false,
        }
    }

    /// The surfaces to draw for the chunks the observer sees, in the order
    /// in which to draw them: with the sightings put in order from near to
    /// far, first the solid surfaces from far to near, then the water
    /// surfaces from near to far. Only live chunks are drawn, and of them
    /// only the surfaces that have render resources.
    pub fn draw(&self, sightings: &Vec<Sighting>) -> (calls: Vec<DrawCall>)
        requires
            self.wf(),
        ensures
            exists|order: Seq<Sighting>| #[trigger]
                near_to_far(sightings@, order) && calls@ == frame_calls(self.live(), order),
    {
        let mut order: Vec<Sighting> = Vec::new();
        let mut n: usize = 0;
        while n < sightings.len()
            invariant
                n <= sightings@.len(),
                order@ == sightings@.subrange(0, n as int),
            decreases sightings@.len() - n,
        {
            order.push(sightings[n]);
            assert(order@ == sightings@.subrange(0, n + 1));
            n = n + 1;
        }
        assert(order@ == sightings@);
        sort_near_to_far(&mut order);
        let len = order.len();
        let ghost far_to_near = order@.reverse();
        let mut calls: Vec<DrawCall> = Vec::new();
        let mut n: usize = 0;
        while n < len
            invariant
                self.wf(),
                len == order@.len(),
                far_to_near == order@.reverse(),
                n <= len,
                calls@ == calls_of(self.live(), far_to_near, Pass::Opaque, n as int),
            decreases len - n,
        {
            let s = order[len - 1 - n];
            assert(far_to_near[n as int] == s);
            if self.draws(&s, Pass::Opaque) {
                calls.push(DrawCall { cc: s.cc, pass: Pass::Opaque });
            }
            n = n + 1;
        }
        let ghost solid = calls@;
        let mut n: usize = 0;
        while n < len
            invariant
                self.wf(),
                len == order@.len(),
                n <= len,
                calls@ == solid + calls_of(self.live(), order@, Pass::Transparent, n as int),
            decreases len - n,
        {
            let s = order[n];
            if self.draws(&s, Pass::Transparent) {
                calls.push(DrawCall { cc: s.cc, pass: Pass::Transparent });
                assert(calls@ == solid + calls_of(self.live(), order@, Pass::Transparent, n + 1));
            }
            n = n + 1;
        }
        assert(near_to_far(sightings@, order@));
        calls
    }
}

impl ChunkManager {
    /// No coordinate is live and being generated at once.
    pub proof fn lemma_one_place(&self, cc: ChunkCoordinates)
        requires
            self.wf(),
        ensures
            !(self.live().contains_key(cc) && self.in_flight().contains(cc)),
    {
    }

    /// Every live chunk is well formed and is filed under its own
    /// coordinate.
    pub proof fn lemma_live_chunk(&self, cc: ChunkCoordinates)
        requires
            self.wf(),
            self.live().contains_key(cc),
        ensures
            self.live()[cc].wf(),
            self.live()[cc].data.cc == cc,
    {
        lemma_key_injective(self.live()[cc].data.cc, cc);
    }
}

/// Of the chunks that were live, each one outside the working set is handed
/// out exactly once, and none inside it is handed out at all.
pub proof fn lemma_released_exactly_once(
    before: Map<ChunkCoordinates, Chunk>,
    settings: Settings,
    center: ChunkCoordinates,
    evicted: Seq<Chunk>,
    cc: ChunkCoordinates,
)
    requires
        released_once(before, settings, center, evicted),
        before.contains_key(cc),
    ensures
        !within(settings, center, cc) ==> exists|n: int|
            0 <= n < evicted.len() && (#[trigger] evicted[n]).data.cc == cc && evicted[n]
                == before[cc] && forall|m: int|
                0 <= m < evicted.len() && (#[trigger] evicted[m]).data.cc == cc ==> m == n,
        within(settings, center, cc) ==> forall|n: int|
            0 <= n < evicted.len() ==> (#[trigger] evicted[n]).data.cc != cc,
{
    if !within(settings, center, cc) {
        let n = choose|n: int| 0 <= n < evicted.len() && (#[trigger] evicted[n]).data.cc == cc;
        assert forall|m: int|
            0 <= m < evicted.len() && (#[trigger] evicted[m]).data.cc == cc implies m == n by {
            if m < n {
                assert(evicted[m].data.cc != evicted[n].data.cc);
            }
            if n < m {
                assert(evicted[n].data.cc != evicted[m].data.cc);
            }
        }
    }
}

/// After a move of the observer no chunk outside the working set is live,
/// and every chunk inside it that was live still is.
pub proof fn lemma_evicted_are_gone(
    before: Map<ChunkCoordinates, Chunk>,
    settings: Settings,
    center: ChunkCoordinates,
    cc: ChunkCoordinates,
)
    ensures
        before.restrict(
            Set::new(|c: ChunkCoordinates| within(settings, center, c)),
        ).contains_key(cc) <==> before.contains_key(cc) && within(settings, center, cc),
{
}

} // verus!
