//! The classifier the world ships with.

use crate::chunk::Block;
use crate::mesh::{in_chunk, lemma_vacant_no_quads, merged_quads, Pass};
use crate::settings::valid_edge;
use crate::world_gen::{
    column_at, lemma_sky_is_not_solid, lemma_voxelized_vacant, slope, slope_block, voxelize,
    voxelized, LevelGenerator, SlopeColumn,
};
use vstd::prelude::*;

verus! {

/// What the classifier knows of a column: the height of its surface and
/// whether the ground is steep there.
#[derive(Copy, Clone, PartialEq, Eq, Structural, Debug)]
pub struct WorldProps2D {
    pub height: i32,
    pub steep: bool,
}

impl WorldProps2D {
    /// The same column as the warped land sees it.
    pub open spec fn as_slope(self) -> SlopeColumn {
        SlopeColumn { height: self.height, steep: self.steep }
    }
}

/// Land of ridges from warped noise, with an ocean.
#[derive(Clone, Copy)]
pub struct WorldGen {
    seed: u32,
}

impl WorldGen {
    /// A classifier whose noise fields grow from `seed`.
    pub fn new(seed: u32) -> (g: WorldGen)
        ensures
            g.seed_of() == seed,
    {
        WorldGen { seed }
    }

    /// The seed the classifier was made with.
    pub closed spec fn seed_of(&self) -> u32 {
        self.seed
    }

    /// The seed the classifier was made with.
    pub fn seed(&self) -> (r: u32)
        ensures
            r == self.seed_of(),
    {
        self.seed
    }

    /// The block array of the chunk whose lowest layer lies at `oy * s`:
    /// every cell holds the material of its column at its height. `columns`
    /// holds the columns of the chunk, the one at `(i, k)` at `k * s + i`.
    pub fn generate_blocks(&self, oy: i32, s: usize, columns: &Vec<WorldProps2D>) -> (blocks: Vec<
        Block,
    >)
        requires
            valid_edge(s as int),
            columns@.len() == s * s,
        ensures
            voxelized(*self, columns@, oy as int, s as int, blocks@),
    {
        voxelize(self, oy, s, columns)
    }
}

impl LevelGenerator for WorldGen {
    type Column = WorldProps2D;

    open spec fn block_for(&self, column: WorldProps2D, y: int) -> Block {
        slope_block(column.as_slope(), y)
    }

    fn classify(&self, column: &WorldProps2D, y: i64) -> (b: Block) {
        slope(&SlopeColumn { height: column.height, steep: column.steep }, y)
    }
}

/// A chunk of the world that lies wholly above the surface of all its
/// columns has no solid surface.
pub proof fn lemma_sky_chunk_has_no_solid_surface(
    gen: WorldGen,
    columns: Seq<WorldProps2D>,
    oy: int,
    s: int,
    blocks: Seq<Block>,
)
    requires
        0 < s,
        columns.len() == s * s,
        voxelized(gen, columns, oy, s, blocks),
        forall|n: int| 0 <= n < columns.len() ==> (#[trigger] columns[n]).height < oy * s,
    ensures
        merged_quads(Pass::Opaque, blocks, s).len() == 0,
{
    assert forall|i: int, j: int, k: int| in_chunk(s, i, j, k) implies !(#[trigger] gen.block_for(
        column_at(columns, s, i, k),
        oy * s + j,
    )).opaque() by {
        assert(0 <= k * s + i < s * s) by (nonlinear_arith)
            requires
                0 <= i < s,
                0 <= k < s,
        ;
        let c = columns[k * s + i];
        lemma_sky_is_not_solid(c.height, oy * s + j);
        assert(c.as_slope() == SlopeColumn { height: c.height, steep: c.steep });
    }
    lemma_voxelized_vacant(gen, columns, oy, s, blocks);
    lemma_vacant_no_quads(Pass::Opaque, blocks, s);
}

} // verus!
