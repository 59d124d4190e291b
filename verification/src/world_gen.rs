//! Terrain classifiers: what material a cell holds, given what the noise
//! fields say of its column.

use crate::chunk::Block;
use crate::mesh::{
    block_at, earlier, in_chunk, lemma_cell_index, lemma_cell_of_index, lemma_cell_order,
    lemma_vacant_no_quads, merged_quads, vacant, volume, Pass,
};
use crate::settings::valid_edge;
use vstd::prelude::*;

verus! {

/// Height of the sea.
pub const SEA_LEVEL_I32: i32 = 0;

/// A terrain classifier. The noise fields are sampled once for each column
/// of a chunk; the classifier turns what they say of a column, and a height
/// in that column, into a material.
pub trait LevelGenerator: Sized {
    /// What the noise fields say of one column.
    type Column;

    /// The material at height `y` of a column.
    spec fn block_for(&self, column: Self::Column, y: int) -> Block;

    /// The material at height `y` of a column.
    fn classify(&self, column: &Self::Column, y: i64) -> (b: Block)
        ensures
            b == self.block_for(*column, y as int),
    ;
}

/// The column at `(i, k)` in a list of the columns of a chunk with edge `s`.
pub open spec fn column_at<C>(columns: Seq<C>, s: int, i: int, k: int) -> C {
    columns[k * s + i]
}

/// Whether `blocks` is the block array that the classifier gives for the
/// chunk whose lowest layer lies at `oy * s`: one block for each cell, each
/// the material of its column at its height.
pub open spec fn voxelized<G: LevelGenerator>(
    gen: G,
    columns: Seq<G::Column>,
    oy: int,
    s: int,
    blocks: Seq<Block>,
) -> bool {
    &&& blocks.len() == volume(s)
    &&& forall|i: int, j: int, k: int|
        in_chunk(s, i, j, k) ==> #[trigger] block_at(blocks, s, i, j, k) == gen.block_for(
            column_at(columns, s, i, k),
            oy * s + j,
        )
}

/// Whether the cells before `(i, j, k)` in the order of the block array hold
/// what the classifier gives.
pub open spec fn voxelized_upto<G: LevelGenerator>(
    gen: G,
    columns: Seq<G::Column>,
    oy: int,
    s: int,
    blocks: Seq<Block>,
    upto: (int, int, int),
) -> bool {
    forall|i: int, j: int, k: int|
        in_chunk(s, i, j, k) && earlier((j, k, i), upto) ==> #[trigger] block_at(blocks, s, i, j, k)
            == gen.block_for(column_at(columns, s, i, k), oy * s + j)
}

/// Fills the block array of a chunk cell by cell.
pub fn voxelize<G: LevelGenerator>(gen: &G, oy: i32, s: usize, columns: &Vec<G::Column>) -> (blocks:
    Vec<Block>)
    requires
        valid_edge(s as int),
        columns@.len() == s * s,
    ensures
        voxelized(*gen, columns@, oy as int, s as int, blocks@),
{
    let ghost si = s as int;
    let ghost cols = columns@;
    let mut blocks: Vec<Block> = Vec::new();
    let mut j: usize = 0;
    while j < s
        invariant
            valid_edge(si),
            si == s as int,
            cols == columns@,
            cols.len() == si * si,
            j <= s,
            blocks@.len() == (j * si) * si,
            voxelized_upto(*gen, cols, oy as int, si, blocks@, (j as int, 0, 0)),
        decreases s - j,
    {
        proof {
            assert(-0x8000_0000 * 390 <= oy * si <= 0x8000_0000 * 390) by (nonlinear_arith)
                requires
                    1 <= si <= 390,
                    -0x8000_0000 <= oy < 0x8000_0000,
            ;
        }
        let y: i64 = (oy as i64) * (s as i64) + (j as i64);
        let mut k: usize = 0;
        while k < s
            invariant
                valid_edge(si),
                si == s as int,
                cols == columns@,
                cols.len() == si * si,
                j < s,
                k <= s,
                y == oy * si + j,
                blocks@.len() == (j * si + k) * si,
                voxelized_upto(*gen, cols, oy as int, si, blocks@, (j as int, k as int, 0)),
            decreases s - k,
        {
            let mut i: usize = 0;
            while i < s
                invariant
                    valid_edge(si),
                    si == s as int,
                    cols == columns@,
                    cols.len() == si * si,
                    j < s,
                    k < s,
                    i <= s,
                    y == oy * si + j,
                    blocks@.len() == (j * si + k) * si + i,
                    voxelized_upto(
                        *gen,
                        cols,
                        oy as int,
                        si,
                        blocks@,
                        (j as int, k as int, i as int),
                    ),
                decreases s - i,
            {
                proof {
                    assert(0 <= k * si && k * si + i < si * si && si * si <= 152100)
                        by (nonlinear_arith)
                        requires
                            0 <= k < si,
                            0 <= i < si,
                            si <= 390,
                    ;
                }
                let b = gen.classify(&columns[k * s + i], y);
                let ghost before = blocks@;
                blocks.push(b);
                proof {
                    lemma_cell_index(si, i as int, j as int, k as int);
                    assert forall|i2: int, j2: int, k2: int|
                        in_chunk(si, i2, j2, k2) && earlier(
                            (j2, k2, i2),
                            (j as int, k as int, i + 1),
                        ) implies #[trigger] block_at(blocks@, si, i2, j2, k2) == gen.block_for(
                        column_at(cols, si, i2, k2),
                        oy * si + j2,
                    ) by {
                        if earlier((j2, k2, i2), (j as int, k as int, i as int)) {
                            lemma_cell_order(si, (i2, j2, k2), (i as int, j as int, k as int));
                            lemma_cell_index(si, i2, j2, k2);
                            assert(block_at(blocks@, si, i2, j2, k2) == block_at(
                                before,
                                si,
                                i2,
                                j2,
                                k2,
                            ));
                        } else {
                            assert(i2 == i && j2 == j && k2 == k);
                        }
                    }
                }
                i = i + 1;
            }
            proof {
                assert((j * si + k) * si + si == (j * si + (k + 1)) * si) by (nonlinear_arith);
            }
            k = k + 1;
        }
        proof {
            assert((j * si + si) * si == ((j + 1) * si) * si) by (nonlinear_arith);
        }
        j = j + 1;
    }
    proof {
        assert((si * si) * si == si * si * si);
    }
    blocks
}

/// What a plain classifier knows of a column: the height of its surface.
#[derive(Copy, Clone, PartialEq, Eq, Structural, Debug)]
pub struct Column {
    pub height: i32,
}

/// The material at height `y` of a column with its surface at `height`, in
/// temperate land: air above the surface and above the sea, water above the
/// surface up to the sea; the surface is grass above height 4 and sand from
/// height -3 on; the three cells below a surface (and a surface at -4 or
/// deeper) are dirt, the rest is stone.
pub open spec fn temperate_block(height: int, y: int) -> Block {
    let dh = y - height;
    if dh > 0 && y > 0 {
        Block::Air
    } else if dh > 0 {
        Block::Water
    } else if dh == 0 && y > 4 {
        Block::Grass
    } else if dh == 0 && y > -4 {
        Block::Sand
    } else if dh > -4 {
        Block::Dirt
    } else {
        Block::Stone
    }
}

/// The material at height `y` of a temperate column.
pub fn temperate(height: i32, y: i64) -> (b: Block)
    ensures
        b == temperate_block(height as int, y as int),
{
    let h: i64 = height as i64;
    if y > h && y > 0 {
        Block::Air
    } else if y > h {
        Block::Water
    } else if y == h && y > 4 {
        Block::Grass
    } else if y == h && y > -4 {
        Block::Sand
    } else if y > h - 4 {
        Block::Dirt
    } else {
        Block::Stone
    }
}

/// What the cliffy classifier knows of a column: the height of its surface
/// and the floor and the ceiling of the cavern below it.
#[derive(Copy, Clone, PartialEq, Eq, Structural, Debug)]
pub struct CliffColumn {
    pub height: i32,
    pub cavern_floor: i32,
    pub cavern_ceiling: i32,
}

/// The material deep below the surface: the cavern between floor and ceiling
/// is air, with blue fungus on its floor; the rest is stone.
pub open spec fn underground_block(floor: int, ceiling: int, y: int) -> Block {
    if y >= ceiling || y < floor {
        Block::Stone
    } else if y == floor {
        Block::BlueFungus
    } else {
        Block::Air
    }
}

/// The material at height `y` of a column of the cliffy land: air above the
/// surface from the sea up and water below the sea; sand in the three
/// topmost cells where they lie below height 5; else grass on the surface,
/// dirt in the two cells below it and the cavern's material further down.
pub open spec fn cliffy_block(column: CliffColumn, y: int) -> Block {
    let height = column.height as int;
    if y > height {
        if y >= SEA_LEVEL_I32 {
            Block::Air
        } else {
            Block::Water
        }
    } else if y < SEA_LEVEL_I32 + 5 && y > height - 3 {
        Block::Sand
    } else if y == height {
        Block::Grass
    } else if y > height - 3 {
        Block::Dirt
    } else {
        underground_block(column.cavern_floor as int, column.cavern_ceiling as int, y)
    }
}

/// What the hell classifier knows of a column: the height of its surface and
/// whether dead grass grows on it.
#[derive(Copy, Clone, PartialEq, Eq, Structural, Debug)]
pub struct HellColumn {
    pub height: i32,
    pub grass: bool,
}

/// The material at height `y` of a column of hell: air above the surface and
/// above the sea, lava above the surface up to the sea; sand in the three
/// topmost cells where they lie below height 5; else the surface is dead
/// grass or left empty, the two cells below it are dirt and the rest is
/// hellstone.
pub open spec fn hell_block(column: HellColumn, y: int) -> Block {
    let height = column.height as int;
    if y > height {
        if y > SEA_LEVEL_I32 {
            Block::Air
        } else {
            Block::Lava
        }
    } else if y < SEA_LEVEL_I32 + 5 && y > height - 3 {
        Block::Sand
    } else if y == height {
        if column.grass {
            Block::DeadGrass
        } else {
            Block::Air
        }
    } else if y > height - 3 {
        Block::Dirt
    } else {
        Block::Hellstone
    }
}

/// What the warped classifier knows of a column: the height of its surface
/// and whether the ground is steep there.
#[derive(Copy, Clone, PartialEq, Eq, Structural, Debug)]
pub struct SlopeColumn {
    pub height: i32,
    pub steep: bool,
}

/// The material at height `y` of a column of the warped land: as in
/// temperate land, but steep ground is stone all the way up.
pub open spec fn slope_block(column: SlopeColumn, y: int) -> Block {
    let dh = y - column.height;
    if dh > 0 && y > 0 {
        Block::Air
    } else if dh > 0 {
        Block::Water
    } else if column.steep {
        Block::Stone
    } else {
        temperate_block(column.height as int, y)
    }
}

/// The material at height `y` of a column of the warped land.
pub fn slope(column: &SlopeColumn, y: i64) -> (b: Block)
    ensures
        b == slope_block(*column, y as int),
{
    let h: i64 = column.height as i64;
    if y > h && y > 0 {
        Block::Air
    } else if y > h {
        Block::Water
    } else if column.steep {
        Block::Stone
    } else {
        temperate(column.height, y)
    }
}

/// What the beach classifier knows of a column: the height of its surface,
/// whether the column lies on the beach and whether grass grows on it.
#[derive(Copy, Clone, PartialEq, Eq, Structural, Debug)]
pub struct Beach2d {
    pub height: i32,
    pub beach: bool,
    pub grass: bool,
}

/// The material at height `y` of a column on the beach: air above the
/// surface from the sea up and water below the sea; the surface is grass or
/// sand, the nine cells below it are sand and the rest is stone.
pub open spec fn beach_sand_block(column: Beach2d, y: int) -> Block {
    let dh = y - column.height;
    if dh > 0 && y >= 0 {
        Block::Air
    } else if dh > 0 {
        Block::Water
    } else if dh == 0 {
        if column.grass {
            Block::Grass
        } else {
            Block::Sand
        }
    } else if dh > -10 {
        Block::Sand
    } else {
        Block::Stone
    }
}

/// The material at height `y` of a column of the beach land: air and water
/// above the surface as in temperate land; below, the beach's material on
/// the beach and else grass on a surface above height 4, dirt in the cells
/// down to three below the surface and stone further down.
pub open spec fn beach_block(column: Beach2d, y: int) -> Block {
    let dh = y - column.height;
    if dh > 0 && y > 0 {
        Block::Air
    } else if dh > 0 {
        Block::Water
    } else if column.beach {
        beach_sand_block(column, y)
    } else if dh == 0 && y > 4 {
        Block::Grass
    } else if dh > -4 {
        Block::Dirt
    } else {
        Block::Stone
    }
}

/// What the moon classifier knows of a column: the height of its surface,
/// whether it lies on the grassy floor of a crater and whether a lake covers
/// it.
#[derive(Copy, Clone, PartialEq, Eq, Structural, Debug)]
pub struct Moon2DProperties {
    pub height: i32,
    pub grassy: bool,
    pub lake: bool,
}

/// The material at height `y` of a column of the moon: moon rock up to the
/// surface; on the grassy floor of a crater grass up to one above the
/// surface, or water up to the surface where a lake covers it; air above.
pub open spec fn moon_block(column: Moon2DProperties, y: int) -> Block {
    let height = column.height as int;
    if column.grassy {
        if column.lake {
            if y > height {
                Block::Air
            } else {
                Block::Water
            }
        } else {
            if y > height + 1 {
                Block::Air
            } else {
                Block::Grass
            }
        }
    } else {
        if y > height {
            Block::Air
        } else {
            Block::MoonRock
        }
    }
}

/// Land of cliffs and caverns.
#[derive(Clone, Copy)]
pub struct GenNormalCliffy {
    seed: u32,
}

impl GenNormalCliffy {
    /// A classifier whose noise fields grow from `seed`.
    pub fn new(seed: u32) -> (g: GenNormalCliffy)
        ensures
            g.seed_of() == seed,
    {
        GenNormalCliffy { seed }
    }

    /// The seed the classifier was made with.
    pub closed spec fn seed_of(&self) -> u32 {
        self.seed
    }

    /// The seed the classifier was made with.
    pub fn seed(&self) -> (r: u32)
        ensures
            r == self.seed_of(),
    {
        self.seed
    }

    /// The material at height `y` deep below the surface of a column.
    pub fn block_underground(&self, column: &CliffColumn, y: i64) -> (b: Block)
        ensures
            b == underground_block(column.cavern_floor as int, column.cavern_ceiling as int, y as int),
    {
        let floor: i64 = column.cavern_floor as i64;
        let ceiling: i64 = column.cavern_ceiling as i64;
        if y >= ceiling || y < floor {
            Block::Stone
        } else if y == floor {
            Block::BlueFungus
        } else {
            Block::Air
        }
    }
}

impl LevelGenerator for GenNormalCliffy {
    type Column = CliffColumn;

    open spec fn block_for(&self, column: CliffColumn, y: int) -> Block {
        cliffy_block(column, y)
    }

    fn classify(&self, column: &CliffColumn, y: i64) -> (b: Block) {
        let height: i64 = column.height as i64;
        let sea: i64 = SEA_LEVEL_I32 as i64;
        if y > height {
            if y >= sea {
                Block::Air
            } else {
                Block::Water
            }
        } else if y < sea + 5 && y > height - 3 {
            Block::Sand
        } else if y == height {
            Block::Grass
        } else if y > height - 3 {
            Block::Dirt
        } else {
            self.block_underground(column, y)
        }
    }
}

impl GenNormalCliffy {
    /// The block array of the chunk whose lowest layer lies at `oy * s`:
    /// every cell holds the material of its column at its height. `columns`
    /// holds the columns of the chunk, the one at `(i, k)` at `k * s + i`.
    pub fn generate_blocks(&self, oy: i32, s: usize, columns: &Vec<CliffColumn>) -> (blocks: Vec<Block>)
        requires
            valid_edge(s as int),
            columns@.len() == s * s,
        ensures
            voxelized(*self, columns@, oy as int, s as int, blocks@),
    {
        voxelize(self, oy, s, columns)
    }
}

/// Land of lava and holes.
#[derive(Clone, Copy)]
pub struct GenHell {
    seed: u32,
}

impl GenHell {
    /// A classifier whose noise fields grow from `seed`.
    pub fn new(seed: u32) -> (g: GenHell)
        ensures
            g.seed_of() == seed,
    {
        GenHell { seed }
    }

    /// The seed the classifier was made with.
    pub closed spec fn seed_of(&self) -> u32 {
        self.seed
    }

    /// The seed the classifier was made with.
    pub fn seed(&self) -> (r: u32)
        ensures
            r == self.seed_of(),
    {
        self.seed
    }
}

impl LevelGenerator for GenHell {
    type Column = HellColumn;

    open spec fn block_for(&self, column: HellColumn, y: int) -> Block {
        hell_block(column, y)
    }

    fn classify(&self, column: &HellColumn, y: i64) -> (b: Block) {
        let height: i64 = column.height as i64;
        let sea: i64 = SEA_LEVEL_I32 as i64;
        if y > height {
            if y > sea {
                Block::Air
            } else {
                Block::Lava
            }
        } else if y < sea + 5 && y > height - 3 {
            Block::Sand
        } else if y == height {
            if column.grass {
                Block::DeadGrass
            } else {
                Block::Air
            }
        } else if y > height - 3 {
            Block::Dirt
        } else {
            Block::Hellstone
        }
    }
}

impl GenHell {
    /// The block array of the chunk whose lowest layer lies at `oy * s`:
    /// every cell holds the material of its column at its height. `columns`
    /// holds the columns of the chunk, the one at `(i, k)` at `k * s + i`.
    pub fn generate_blocks(&self, oy: i32, s: usize, columns: &Vec<HellColumn>) -> (blocks: Vec<Block>)
        requires
            valid_edge(s as int),
            columns@.len() == s * s,
        ensures
            voxelized(*self, columns@, oy as int, s as int, blocks@),
    {
        voxelize(self, oy, s, columns)
    }
}

/// Land from one field of sharpened noise.
#[derive(Clone, Copy)]
pub struct GenExp {
    seed: u32,
}

impl GenExp {
    /// A classifier whose noise fields grow from `seed`.
    pub fn new(seed: u32) -> (g: GenExp)
        ensures
            g.seed_of() == seed,
    {
        GenExp { seed }
    }

    /// The seed the classifier was made with.
    pub closed spec fn seed_of(&self) -> u32 {
        self.seed
    }

    /// The seed the classifier was made with.
    pub fn seed(&self) -> (r: u32)
        ensures
            r == self.seed_of(),
    {
        self.seed
    }
}

impl LevelGenerator for GenExp {
    type Column = Column;

    open spec fn block_for(&self, column: Column, y: int) -> Block {
        temperate_block(column.height as int, y)
    }

    fn classify(&self, column: &Column, y: i64) -> (b: Block) {
        temperate(column.height, y)
    }
}

impl GenExp {
    /// The block array of the chunk whose lowest layer lies at `oy * s`:
    /// every cell holds the material of its column at its height. `columns`
    /// holds the columns of the chunk, the one at `(i, k)` at `k * s + i`.
    pub fn generate_blocks(&self, oy: i32, s: usize, columns: &Vec<Column>) -> (blocks: Vec<Block>)
        requires
            valid_edge(s as int),
            columns@.len() == s * s,
        ensures
            voxelized(*self, columns@, oy as int, s as int, blocks@),
    {
        voxelize(self, oy, s, columns)
    }
}

/// Land of hummocks blended from two fields.
#[derive(Clone, Copy)]
pub struct GenErosion {
    seed: u32,
}

impl GenErosion {
    /// A classifier whose noise fields grow from `seed`.
    pub fn new(seed: u32) -> (g: GenErosion)
        ensures
            g.seed_of() == seed,
    {
        GenErosion { seed }
    }

    /// The seed the classifier was made with.
    pub closed spec fn seed_of(&self) -> u32 {
        self.seed
    }

    /// The seed the classifier was made with.
    pub fn seed(&self) -> (r: u32)
        ensures
            r == self.seed_of(),
    {
        self.seed
    }
}

impl LevelGenerator for GenErosion {
    type Column = Column;

    open spec fn block_for(&self, column: Column, y: int) -> Block {
        temperate_block(column.height as int, y)
    }

    fn classify(&self, column: &Column, y: i64) -> (b: Block) {
        temperate(column.height, y)
    }
}

impl GenErosion {
    /// The block array of the chunk whose lowest layer lies at `oy * s`:
    /// every cell holds the material of its column at its height. `columns`
    /// holds the columns of the chunk, the one at `(i, k)` at `k * s + i`.
    pub fn generate_blocks(&self, oy: i32, s: usize, columns: &Vec<Column>) -> (blocks: Vec<Block>)
        requires
            valid_edge(s as int),
            columns@.len() == s * s,
        ensures
            voxelized(*self, columns@, oy as int, s as int, blocks@),
    {
        voxelize(self, oy, s, columns)
    }
}

/// Land summed from fields of several scales.
#[derive(Clone, Copy)]
pub struct GenErosion2 {
    seed: u32,
}

impl GenErosion2 {
    /// A classifier whose noise fields grow from `seed`.
    pub fn new(seed: u32) -> (g: GenErosion2)
        ensures
            g.seed_of() == seed,
    {
        GenErosion2 { seed }
    }

    /// The seed the classifier was made with.
    pub closed spec fn seed_of(&self) -> u32 {
        self.seed
    }

    /// The seed the classifier was made with.
    pub fn seed(&self) -> (r: u32)
        ensures
            r == self.seed_of(),
    {
        self.seed
    }
}

impl LevelGenerator for GenErosion2 {
    type Column = Column;

    open spec fn block_for(&self, column: Column, y: int) -> Block {
        temperate_block(column.height as int, y)
    }

    fn classify(&self, column: &Column, y: i64) -> (b: Block) {
        temperate(column.height, y)
    }
}

impl GenErosion2 {
    /// The block array of the chunk whose lowest layer lies at `oy * s`:
    /// every cell holds the material of its column at its height. `columns`
    /// holds the columns of the chunk, the one at `(i, k)` at `k * s + i`.
    pub fn generate_blocks(&self, oy: i32, s: usize, columns: &Vec<Column>) -> (blocks: Vec<Block>)
        requires
            valid_edge(s as int),
            columns@.len() == s * s,
        ensures
            voxelized(*self, columns@, oy as int, s as int, blocks@),
    {
        voxelize(self, oy, s, columns)
    }
}

/// Land that follows the highest of several fields.
#[derive(Clone, Copy)]
pub struct GenCrag {
    seed: u32,
}

impl GenCrag {
    /// A classifier whose noise fields grow from `seed`.
    pub fn new(seed: u32) -> (g: GenCrag)
        ensures
            g.seed_of() == seed,
    {
        GenCrag { seed }
    }

    /// The seed the classifier was made with.
    pub closed spec fn seed_of(&self) -> u32 {
        self.seed
    }

    /// The seed the classifier was made with.
    pub fn seed(&self) -> (r: u32)
        ensures
            r == self.seed_of(),
    {
        self.seed
    }
}

impl LevelGenerator for GenCrag {
    type Column = Column;

    open spec fn block_for(&self, column: Column, y: int) -> Block {
        temperate_block(column.height as int, y)
    }

    fn classify(&self, column: &Column, y: i64) -> (b: Block) {
        temperate(column.height, y)
    }
}

impl GenCrag {
    /// The block array of the chunk whose lowest layer lies at `oy * s`:
    /// every cell holds the material of its column at its height. `columns`
    /// holds the columns of the chunk, the one at `(i, k)` at `k * s + i`.
    pub fn generate_blocks(&self, oy: i32, s: usize, columns: &Vec<Column>) -> (blocks: Vec<Block>)
        requires
            valid_edge(s as int),
            columns@.len() == s * s,
        ensures
            voxelized(*self, columns@, oy as int, s as int, blocks@),
    {
        voxelize(self, oy, s, columns)
    }
}

/// Land in terraces, by how many samples near a point run high.
#[derive(Clone, Copy)]
pub struct GenClassify {
    seed: u32,
}

impl GenClassify {
    /// A classifier whose noise fields grow from `seed`.
    pub fn new(seed: u32) -> (g: GenClassify)
        ensures
            g.seed_of() == seed,
    {
        GenClassify { seed }
    }

    /// The seed the classifier was made with.
    pub closed spec fn seed_of(&self) -> u32 {
        self.seed
    }

    /// The seed the classifier was made with.
    pub fn seed(&self) -> (r: u32)
        ensures
            r == self.seed_of(),
    {
        self.seed
    }
}

impl GenClassify {
    /// The height of the terrace at a point, by how many of the five samples
    /// round the point run high.
    pub open spec fn terrace_height(count: int) -> int {
        if count == 0 {
            -10
        } else if count == 1 {
            2
        } else if count == 2 {
            10
        } else if count == 3 {
            20
        } else {
            30
        }
    }

    /// The height of the terrace at a point where `count` of the five
    /// samples round it run high.
    pub fn terrace(count: usize) -> (h: i32)
        requires
            count <= 5,
        ensures
            h == Self::terrace_height(count as int),
    {
        if count == 0 {
            -10
        } else if count == 1 {
            2
        } else if count == 2 {
            10
        } else if count == 3 {
            20
        } else {
            30
        }
    }
}

impl LevelGenerator for GenClassify {
    type Column = Column;

    open spec fn block_for(&self, column: Column, y: int) -> Block {
        temperate_block(column.height as int, y)
    }

    fn classify(&self, column: &Column, y: i64) -> (b: Block) {
        temperate(column.height, y)
    }
}

impl GenClassify {
    /// The block array of the chunk whose lowest layer lies at `oy * s`:
    /// every cell holds the material of its column at its height. `columns`
    /// holds the columns of the chunk, the one at `(i, k)` at `k * s + i`.
    pub fn generate_blocks(&self, oy: i32, s: usize, columns: &Vec<Column>) -> (blocks: Vec<Block>)
        requires
            valid_edge(s as int),
            columns@.len() == s * s,
        ensures
            voxelized(*self, columns@, oy as int, s as int, blocks@),
    {
        voxelize(self, oy, s, columns)
    }
}

/// Table land: flat ground at two heights with a short slope between.
#[derive(Clone, Copy)]
pub struct GenTable {
    seed: u32,
}

impl GenTable {
    /// A classifier whose noise fields grow from `seed`.
    pub fn new(seed: u32) -> (g: GenTable)
        ensures
            g.seed_of() == seed,
    {
        GenTable { seed }
    }

    /// The seed the classifier was made with.
    pub closed spec fn seed_of(&self) -> u32 {
        self.seed
    }

    /// The seed the classifier was made with.
    pub fn seed(&self) -> (r: u32)
        ensures
            r == self.seed_of(),
    {
        self.seed
    }
}

impl LevelGenerator for GenTable {
    type Column = Column;

    open spec fn block_for(&self, column: Column, y: int) -> Block {
        temperate_block(column.height as int, y)
    }

    fn classify(&self, column: &Column, y: i64) -> (b: Block) {
        temperate(column.height, y)
    }
}

impl GenTable {
    /// The block array of the chunk whose lowest layer lies at `oy * s`:
    /// every cell holds the material of its column at its height. `columns`
    /// holds the columns of the chunk, the one at `(i, k)` at `k * s + i`.
    pub fn generate_blocks(&self, oy: i32, s: usize, columns: &Vec<Column>) -> (blocks: Vec<Block>)
        requires
            valid_edge(s as int),
            columns@.len() == s * s,
        ensures
            voxelized(*self, columns@, oy as int, s as int, blocks@),
    {
        voxelize(self, oy, s, columns)
    }
}

/// Land of regular waves.
#[derive(Clone, Copy)]
pub struct GenBlue {
    seed: u32,
}

impl GenBlue {
    /// A classifier whose noise fields grow from `seed`.
    pub fn new(seed: u32) -> (g: GenBlue)
        ensures
            g.seed_of() == seed,
    {
        GenBlue { seed }
    }

    /// The seed the classifier was made with.
    pub closed spec fn seed_of(&self) -> u32 {
        self.seed
    }

    /// The seed the classifier was made with.
    pub fn seed(&self) -> (r: u32)
        ensures
            r == self.seed_of(),
    {
        self.seed
    }
}

impl LevelGenerator for GenBlue {
    type Column = Column;

    open spec fn block_for(&self, column: Column, y: int) -> Block {
        temperate_block(column.height as int, y)
    }

    fn classify(&self, column: &Column, y: i64) -> (b: Block) {
        temperate(column.height, y)
    }
}

impl GenBlue {
    /// The block array of the chunk whose lowest layer lies at `oy * s`:
    /// every cell holds the material of its column at its height. `columns`
    /// holds the columns of the chunk, the one at `(i, k)` at `k * s + i`.
    pub fn generate_blocks(&self, oy: i32, s: usize, columns: &Vec<Column>) -> (blocks: Vec<Block>)
        requires
            valid_edge(s as int),
            columns@.len() == s * s,
        ensures
            voxelized(*self, columns@, oy as int, s as int, blocks@),
    {
        voxelize(self, oy, s, columns)
    }
}

/// A single island in the sea.
#[derive(Clone, Copy)]
pub struct GenIsland {
    seed: u32,
}

impl GenIsland {
    /// A classifier whose noise fields grow from `seed`.
    pub fn new(seed: u32) -> (g: GenIsland)
        ensures
            g.seed_of() == seed,
    {
        GenIsland { seed }
    }

    /// The seed the classifier was made with.
    pub closed spec fn seed_of(&self) -> u32 {
        self.seed
    }

    /// The seed the classifier was made with.
    pub fn seed(&self) -> (r: u32)
        ensures
            r == self.seed_of(),
    {
        self.seed
    }
}

impl LevelGenerator for GenIsland {
    type Column = Column;

    open spec fn block_for(&self, column: Column, y: int) -> Block {
        temperate_block(column.height as int, y)
    }

    fn classify(&self, column: &Column, y: i64) -> (b: Block) {
        temperate(column.height, y)
    }
}

impl GenIsland {
    /// The block array of the chunk whose lowest layer lies at `oy * s`:
    /// every cell holds the material of its column at its height. `columns`
    /// holds the columns of the chunk, the one at `(i, k)` at `k * s + i`.
    pub fn generate_blocks(&self, oy: i32, s: usize, columns: &Vec<Column>) -> (blocks: Vec<Block>)
        requires
            valid_edge(s as int),
            columns@.len() == s * s,
        ensures
            voxelized(*self, columns@, oy as int, s as int, blocks@),
    {
        voxelize(self, oy, s, columns)
    }
}

/// Land of ridges from warped noise, with an ocean.
#[derive(Clone, Copy)]
pub struct GenWarp {
    seed: u32,
}

impl GenWarp {
    /// A classifier whose noise fields grow from `seed`.
    pub fn new(seed: u32) -> (g: GenWarp)
        ensures
            g.seed_of() == seed,
    {
        GenWarp { seed }
    }

    /// The seed the classifier was made with.
    pub closed spec fn seed_of(&self) -> u32 {
        self.seed
    }

    /// The seed the classifier was made with.
    pub fn seed(&self) -> (r: u32)
        ensures
            r == self.seed_of(),
    {
        self.seed
    }
}

impl LevelGenerator for GenWarp {
    type Column = SlopeColumn;

    open spec fn block_for(&self, column: SlopeColumn, y: int) -> Block {
        slope_block(column, y)
    }

    fn classify(&self, column: &SlopeColumn, y: i64) -> (b: Block) {
        slope(column, y)
    }
}

impl GenWarp {
    /// The block array of the chunk whose lowest layer lies at `oy * s`:
    /// every cell holds the material of its column at its height. `columns`
    /// holds the columns of the chunk, the one at `(i, k)` at `k * s + i`.
    pub fn generate_blocks(&self, oy: i32, s: usize, columns: &Vec<SlopeColumn>) -> (blocks: Vec<Block>)
        requires
            valid_edge(s as int),
            columns@.len() == s * s,
        ensures
            voxelized(*self, columns@, oy as int, s as int, blocks@),
    {
        voxelize(self, oy, s, columns)
    }
}

/// Land behind a beach.
#[derive(Clone, Copy)]
pub struct GenBeach {
    seed: u32,
}

impl GenBeach {
    /// A classifier whose noise fields grow from `seed`.
    pub fn new(seed: u32) -> (g: GenBeach)
        ensures
            g.seed_of() == seed,
    {
        GenBeach { seed }
    }

    /// The seed the classifier was made with.
    pub closed spec fn seed_of(&self) -> u32 {
        self.seed
    }

    /// The seed the classifier was made with.
    pub fn seed(&self) -> (r: u32)
        ensures
            r == self.seed_of(),
    {
        self.seed
    }

    /// The material at height `y` of a column on the beach.
    pub fn block_beach(&self, y: i64, beach_params: &Beach2d) -> (b: Block)
        ensures
            b == beach_sand_block(*beach_params, y as int),
    {
        let h: i64 = beach_params.height as i64;
        if y > h && y >= 0 {
            Block::Air
        } else if y > h {
            Block::Water
        } else if y == h {
            if beach_params.grass {
                Block::Grass
            } else {
                Block::Sand
            }
        } else if y > h - 10 {
            Block::Sand
        } else {
            Block::Stone
        }
    }
}

impl LevelGenerator for GenBeach {
    type Column = Beach2d;

    open spec fn block_for(&self, column: Beach2d, y: int) -> Block {
        beach_block(column, y)
    }

    fn classify(&self, column: &Beach2d, y: i64) -> (b: Block) {
        let h: i64 = column.height as i64;
        if y > h && y > 0 {
            Block::Air
        } else if y > h {
            Block::Water
        } else if column.beach {
            self.block_beach(y, column)
        } else if y == h && y > 4 {
            Block::Grass
        } else if y > h - 4 {
            Block::Dirt
        } else {
            Block::Stone
        }
    }
}

impl GenBeach {
    /// The block array of the chunk whose lowest layer lies at `oy * s`:
    /// every cell holds the material of its column at its height. `columns`
    /// holds the columns of the chunk, the one at `(i, k)` at `k * s + i`.
    pub fn generate_blocks(&self, oy: i32, s: usize, columns: &Vec<Beach2d>) -> (blocks: Vec<Block>)
        requires
            valid_edge(s as int),
            columns@.len() == s * s,
        ensures
            voxelized(*self, columns@, oy as int, s as int, blocks@),
    {
        voxelize(self, oy, s, columns)
    }
}

/// A moon with craters, some of them grassy, some with lakes.
#[derive(Clone, Copy)]
pub struct GenMagicMoon {
    seed: u32,
}

impl GenMagicMoon {
    /// A classifier whose noise fields grow from `seed`.
    pub fn new(seed: u32) -> (g: GenMagicMoon)
        ensures
            g.seed_of() == seed,
    {
        GenMagicMoon { seed }
    }

    /// The seed the classifier was made with.
    pub closed spec fn seed_of(&self) -> u32 {
        self.seed
    }

    /// The seed the classifier was made with.
    pub fn seed(&self) -> (r: u32)
        ensures
            r == self.seed_of(),
    {
        self.seed
    }
}

impl LevelGenerator for GenMagicMoon {
    type Column = Moon2DProperties;

    open spec fn block_for(&self, column: Moon2DProperties, y: int) -> Block {
        moon_block(column, y)
    }

    fn classify(&self, column: &Moon2DProperties, y: i64) -> (b: Block) {
        let height: i64 = column.height as i64;
        if column.grassy {
            if column.lake {
                if y > height {
                    Block::Air
                } else {
                    Block::Water
                }
            } else {
                if y > height + 1 {
                    Block::Air
                } else {
                    Block::Grass
                }
            }
        } else {
            if y > height {
                Block::Air
            } else {
                Block::MoonRock
            }
        }
    }
}

impl GenMagicMoon {
    /// The block array of the chunk whose lowest layer lies at `oy * s`:
    /// every cell holds the material of its column at its height. `columns`
    /// holds the columns of the chunk, the one at `(i, k)` at `k * s + i`.
    pub fn generate_blocks(&self, oy: i32, s: usize, columns: &Vec<Moon2DProperties>) -> (blocks: Vec<Block>)
        requires
            valid_edge(s as int),
            columns@.len() == s * s,
        ensures
            voxelized(*self, columns@, oy as int, s as int, blocks@),
    {
        voxelize(self, oy, s, columns)
    }
}

/// Above the surface of a column there is only air and water, whatever the
/// land: nothing solid. (Hell has lava there and is left out.)
pub proof fn lemma_sky_is_not_solid(height: i32, y: int)
    requires
        y > height,
    ensures
        !temperate_block(height as int, y).opaque(),
        forall|steep: bool| !(#[trigger] slope_block(SlopeColumn { height, steep }, y)).opaque(),
        forall|cavern_floor: i32, cavern_ceiling: i32|
            !(#[trigger] cliffy_block(CliffColumn { height, cavern_floor, cavern_ceiling }, y)).opaque(),
        forall|beach: bool, grass: bool|
            !(#[trigger] beach_block(Beach2d { height, beach, grass }, y)).opaque(),
        forall|lake: bool| !(#[trigger] moon_block(Moon2DProperties { height, grassy: false, lake }, y)).opaque(),
        forall|lake: bool|
            y > height + 1 ==> !(#[trigger] moon_block(
                Moon2DProperties { height, grassy: true, lake },
                y,
            )).opaque(),
{
}

/// A chunk holds no solid block where, at every height of the chunk, the
/// classifier gives nothing solid for any of its columns.
pub proof fn lemma_voxelized_vacant<G: LevelGenerator>(
    gen: G,
    columns: Seq<G::Column>,
    oy: int,
    s: int,
    blocks: Seq<Block>,
)
    requires
        0 < s,
        voxelized(gen, columns, oy, s, blocks),
        forall|i: int, j: int, k: int|
            in_chunk(s, i, j, k) ==> !(#[trigger] gen.block_for(
                column_at(columns, s, i, k),
                oy * s + j,
            )).opaque(),
    ensures
        vacant(Pass::Opaque, blocks, s),
{
    assert forall|n: int| 0 <= n < blocks.len() implies !Pass::Opaque.takes(blocks[n]) by {
        let c = lemma_cell_of_index(s, n);
        assert(block_at(blocks, s, c.0, c.1, c.2) == blocks[n]);
        assert(!gen.block_for(column_at(columns, s, c.0, c.2), oy * s + c.1).opaque());
    }
}

/// A chunk of temperate land that lies wholly above the surface of all its
/// columns has no solid surface.
pub proof fn lemma_sky_chunk_has_no_solid_surface(
    gen: GenExp,
    columns: Seq<Column>,
    oy: int,
    s: int,
    blocks: Seq<Block>,
)
    requires
        0 < s,
        columns.len() == s * s,
        voxelized(gen, columns, oy, s, blocks),
        forall|n: int| 0 <= n < columns.len() ==> (#[trigger] columns[n]).height < oy * s,
    ensures
        merged_quads(Pass::Opaque, blocks, s).len() == 0,
{
    assert forall|i: int, j: int, k: int| in_chunk(s, i, j, k) implies !(#[trigger] gen.block_for(
        column_at(columns, s, i, k),
        oy * s + j,
    )).opaque() by {
        assert(0 <= k * s + i < s * s) by (nonlinear_arith)
            requires
                0 <= i < s,
                0 <= k < s,
        ;
        let c = columns[k * s + i];
        lemma_sky_is_not_solid(c.height, oy * s + j);
    }
    lemma_voxelized_vacant(gen, columns, oy, s, blocks);
    lemma_vacant_no_quads(Pass::Opaque, blocks, s);
}

/// For one classifier, one list of columns and one height there is but one
/// block array: generation never gives two different chunks for the same
/// input.
pub proof fn lemma_voxelized_is_one_array<G: LevelGenerator>(
    gen: G,
    columns: Seq<G::Column>,
    oy: int,
    s: int,
    first: Seq<Block>,
    second: Seq<Block>,
)
    requires
        0 < s,
        voxelized(gen, columns, oy, s, first),
        voxelized(gen, columns, oy, s, second),
    ensures
        first == second,
{
    assert forall|n: int| 0 <= n < first.len() implies first[n] == second[n] by {
        let c = lemma_cell_of_index(s, n);
        assert(block_at(first, s, c.0, c.1, c.2) == first[n]);
        assert(block_at(second, s, c.0, c.1, c.2) == second[n]);
    }
    assert(first =~= second);
}

} // verus!
