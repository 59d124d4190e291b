//! Blocks, the block array of a chunk, and the streams its surface is drawn
//! with.

use crate::chunk_manager::ChunkCoordinates;
use crate::mesh::{
    band_quads, block_at, cell_index, cell_quads, column_blocks, column_index, column_quads,
    earlier, face_material, face_quads, in_chunk, index_stream, layer_quads, lemma_cell_index,
    lemma_column_index, lemma_column_order, lemma_neighbour_index, lemma_rle_total,
    lemma_run_total_bounds, lemma_stream_lengths, line, merged_quads, merged_upto, quad_indices,
    quad_vertex, quad_vertices, rle, rle_push, row_quads, run_ends, run_quad, run_quads,
    run_start, run_total, slab_quads, strip_quads, unit_quad, unmerged_quads, unmerged_upto,
    upright_face_quads, upright_quads, upright_upto, vertex_stream, volume, Axis, Face, Pass,
    Quad, Vertex,
};
use crate::settings::{valid_edge, MAX_EDGE};
use crate::world_gen::{voxelize, voxelized, LevelGenerator};
use vstd::prelude::*;

verus! {

/// A material tag. Every cell of a chunk holds exactly one.
#[derive(Copy, Clone, PartialEq, Eq, Structural, Debug)]
pub enum Block {
    Air,
    Dirt,
    Grass,
    Stone,
    Water,
    Sand,
    Lava,
    Hellstone,
    DeadGrass,
    MoonRock,
    Moss,
    BlueFungus,
    YellowFungus,
    /// Marks a cell that no rule of a generator accounts for.
    Wat,
}

/// A colour with its four channels in tenths: 10 stands for full intensity.
#[derive(Copy, Clone, PartialEq, Eq, Structural, Debug)]
pub struct Colour {
    pub r: u8,
    pub g: u8,
    pub b: u8,
    pub a: u8,
}

impl Block {
    /// Whether light does not pass through the material. Only air and water
    /// let it through.
    pub open spec fn opaque(self) -> bool {
        self != Block::Air && self != Block::Water
    }

    /// The colour a face of this material is drawn with. Air has none.
    pub open spec fn spec_colour(self) -> Colour {
        match self {
            Block::Air => Colour { r: 0, g: 0, b: 0, a: 0 },
            Block::Dirt => Colour { r: 7, g: 5, b: 2, a: 10 },
            Block::Grass => Colour { r: 0, g: 10, b: 0, a: 10 },
            Block::Stone => Colour { r: 6, g: 6, b: 6, a: 10 },
            Block::Water => Colour { r: 0, g: 0, b: 10, a: 5 },
            Block::Sand => Colour { r: 10, g: 10, b: 0, a: 10 },
            Block::Lava => Colour { r: 10, g: 0, b: 0, a: 10 },
            Block::Hellstone => Colour { r: 6, g: 2, b: 2, a: 10 },
            Block::DeadGrass => Colour { r: 5, g: 7, b: 0, a: 10 },
            Block::MoonRock => Colour { r: 9, g: 9, b: 7, a: 10 },
            Block::Moss => Colour { r: 0, g: 7, b: 0, a: 10 },
            Block::BlueFungus => Colour { r: 0, g: 7, b: 10, a: 10 },
            Block::YellowFungus => Colour { r: 5, g: 10, b: 1, a: 10 },
            Block::Wat => Colour { r: 10, g: 0, b: 10, a: 10 },
        }
    }

    /// Tells whether light does not pass through the material.
    pub fn is_opaque(&self) -> (r: bool)
        ensures
            r == self.opaque(),
    {
        match self {
            Block::Air => false,
            Block::Water => false,
            _ => true,
        }
    }

    /// The colour a face of this material is drawn with. Air is never drawn,
    /// so it may not be asked for.
    pub fn colour(&self) -> (c: Colour)
        requires
            *self != Block::Air,
        ensures
            c == self.spec_colour(),
    {
        match self {
            Block::Air => Colour { r: 0, g: 0, b: 0, a: 0 },
            Block::Dirt => Colour { r: 7, g: 5, b: 2, a: 10 },
            Block::Grass => Colour { r: 0, g: 10, b: 0, a: 10 },
            Block::Stone => Colour { r: 6, g: 6, b: 6, a: 10 },
            Block::Water => Colour { r: 0, g: 0, b: 10, a: 5 },
            Block::Sand => Colour { r: 10, g: 10, b: 0, a: 10 },
            Block::Lava => Colour { r: 10, g: 0, b: 0, a: 10 },
            Block::Hellstone => Colour { r: 6, g: 2, b: 2, a: 10 },
            Block::DeadGrass => Colour { r: 5, g: 7, b: 0, a: 10 },
            Block::MoonRock => Colour { r: 9, g: 9, b: 7, a: 10 },
            Block::Moss => Colour { r: 0, g: 7, b: 0, a: 10 },
            Block::BlueFungus => Colour { r: 0, g: 7, b: 10, a: 10 },
            Block::YellowFungus => Colour { r: 5, g: 10, b: 1, a: 10 },
            Block::Wat => Colour { r: 10, g: 0, b: 10, a: 10 },
        }
    }
}

/// A run-length encoding of a sequence of blocks.
pub struct BlockRLE {
    elements: Vec<(Block, u32)>,
}

impl View for BlockRLE {
    type V = Seq<(Block, u32)>;

    /// The runs, each a material and the number of blocks of it.
    closed spec fn view(&self) -> Seq<(Block, u32)> {
        self.elements@
    }
}

impl BlockRLE {
    /// The encoding of the empty sequence.
    pub fn new() -> (r: BlockRLE)
        ensures
            r@ == Seq::<(Block, u32)>::empty(),
    {
        BlockRLE { elements: Vec::new() }
    }

    /// Adds one block at the end: the last run grows where it is of the same
    /// material, else a new run begins.
    pub fn push(&mut self, block: Block)
        requires
            run_total(old(self)@, old(self)@.len() as int) < u32::MAX,
        ensures
            final(self)@ == rle_push(old(self)@, block),
    {
        let len = self.elements.len();
        if len == 0 {
            self.elements.push((block, 1));
            return ;
        }
        let (last_block, last_amount) = self.elements[len - 1];
        if last_block == block {
            proof {
                lemma_run_total_bounds(self@, len as int);
            }
            self.elements.set(len - 1, (last_block, last_amount + 1));
        } else {
            self.elements.push((block, 1));
        }
    }

    /// The number of runs.
    pub fn len(&self) -> (n: usize)
        ensures
            n == self@.len(),
    {
        self.elements.len()
    }

    /// The run at place `n`.
    pub fn run(&self, n: usize) -> (r: (Block, u32))
        requires
            n < self@.len(),
        ensures
            r == self@[n as int],
    {
        self.elements[n]
    }
}

/// The block array of one chunk: `size`^3 cells, the cell `(i, j, k)` at
/// `k * size + j * size * size + i`.
pub struct ChunkData {
    pub blocks: Vec<Block>,
    pub cc: ChunkCoordinates,
    pub size: usize,
}

/// A vertex stream and the index stream that goes with it.
pub struct MeshBuffers {
    pub vertices: Vec<Vertex>,
    pub indices: Vec<u32>,
}

impl MeshBuffers {
    /// Whether the streams are those of the given quads, in a chunk whose
    /// first cell lies at `origin`.
    pub open spec fn holds(&self, quads: Seq<Quad>, origin: (int, int, int)) -> bool {
        &&& self.vertices@ == vertex_stream(quads, origin)
        &&& self.indices@ == index_stream(quads.len())
    }
}

impl ChunkData {
    /// Whether the array has one block for each cell and the edge is one a
    /// chunk can have.
    pub open spec fn wf(&self) -> bool {
        &&& valid_edge(self.size as int)
        &&& self.blocks@.len() == volume(self.size as int)
    }

    /// The world position of the first cell of the chunk.
    pub open spec fn origin(&self) -> (int, int, int) {
        (self.size * self.cc.x, self.size * self.cc.y, self.size * self.cc.z)
    }

    /// The data of the chunk at `cc` as the classifier `level_gen` fills it:
    /// every cell holds the material of its column at its height. `columns`
    /// holds what the noise fields say of the columns of the chunk, the
    /// column at `(i, k)` at `k * size + i`.
    pub fn new<G: LevelGenerator>(
        cc: ChunkCoordinates,
        level_gen: &G,
        size: usize,
        columns: &Vec<G::Column>,
    ) -> (data: ChunkData)
        requires
            valid_edge(size as int),
            columns@.len() == size * size,
        ensures
            data.wf(),
            data.cc == cc,
            data.size == size,
            voxelized(*level_gen, columns@, cc.y as int, size as int, data.blocks@),
    {
        ChunkData { blocks: voxelize(level_gen, cc.y, size, columns), cc, size }
    }

    /// Wraps a block array as the data of the chunk at `cc`. The array must
    /// hold `size`^3 blocks.
    pub fn from_blocks(cc: ChunkCoordinates, size: usize, blocks: Vec<Block>) -> (data: ChunkData)
        requires
            valid_edge(size as int),
            blocks@.len() == volume(size as int),
        ensures
            data.wf(),
            data.blocks == blocks,
            data.cc == cc,
            data.size == size,
    {
        ChunkData { blocks, cc, size }
    }

    /// The place of the cell `(i, j, k)` in the block array.
    pub fn index(&self, i: usize, j: usize, k: usize) -> (idx: usize)
        requires
            self.wf(),
            in_chunk(self.size as int, i as int, j as int, k as int),
        ensures
            idx == cell_index(self.size as int, i as int, j as int, k as int),
            idx < self.blocks@.len(),
    {
        proof {
            lemma_cell_index(self.size as int, i as int, j as int, k as int);
            lemma_volume_bound(self.size as int);
            let s = self.size as int;
            assert(0 <= (j * s + k) * s <= (j * s + k) * s + i) by (nonlinear_arith)
                requires
                    0 <= j,
                    0 <= k,
                    0 <= i,
                    0 < s,
            ;
            assert(0 <= j * s <= j * s + k) by (nonlinear_arith)
                requires
                    0 <= j,
                    0 <= k,
                    0 < s,
            ;
        }
        (j * self.size + k) * self.size + i
    }

    /// The material of the cell `(i, j, k)`.
    pub fn block(&self, i: usize, j: usize, k: usize) -> (b: Block)
        requires
            self.wf(),
            in_chunk(self.size as int, i as int, j as int, k as int),
        ensures
            b == block_at(self.blocks@, self.size as int, i as int, j as int, k as int),
    {
        let idx = self.index(i, j, k);
        self.blocks[idx]
    }
}

/// The largest number of quads a chunk can have: six for each cell of a chunk
/// of the largest edge.
pub const MAX_QUADS: usize = 355914000;

impl MeshBuffers {
    /// Two empty streams.
    pub fn new() -> (m: MeshBuffers)
        ensures
            m.vertices@.len() == 0,
            m.indices@.len() == 0,
            forall|origin: (int, int, int)| m.holds(Seq::<Quad>::empty(), origin),
    {
        MeshBuffers { vertices: Vec::new(), indices: Vec::new() }
    }

    /// Appends the four vertices and the six indices of one quad.
    fn push_quad(
        &mut self,
        origin: (i64, i64, i64),
        face: Face,
        block: Block,
        start: (usize, usize, usize),
        len: usize,
        axis: Axis,
        Ghost(quads): Ghost<Seq<Quad>>,
    )
        requires
            old(self).holds(quads, (origin.0 as int, origin.1 as int, origin.2 as int)),
            quads.len() < MAX_QUADS,
            block != Block::Air,
            start.0 <= MAX_EDGE && start.1 <= MAX_EDGE && start.2 <= MAX_EDGE && len <= MAX_EDGE,
            -0x1_0000_0000_0000 <= origin.0 <= 0x1_0000_0000_0000,
            -0x1_0000_0000_0000 <= origin.1 <= 0x1_0000_0000_0000,
            -0x1_0000_0000_0000 <= origin.2 <= 0x1_0000_0000_0000,
        ensures
            final(self).holds(
                quads.push(
                    Quad {
                        face,
                        block,
                        i: start.0 as int,
                        j: start.1 as int,
                        k: start.2 as int,
                        len: len as int,
                        axis,
                    },
                ),
                (origin.0 as int, origin.1 as int, origin.2 as int),
            ),
    {
        let ghost o = (origin.0 as int, origin.1 as int, origin.2 as int);
        let ghost q = Quad {
            face,
            block,
            i: start.0 as int,
            j: start.1 as int,
            k: start.2 as int,
            len: len as int,
            axis,
        };
        proof {
            lemma_stream_lengths(quads, o);
        }
        let base: u32 = self.vertices.len() as u32;
        let colour = block.colour();
        let n = face.unit();
        let mut v: usize = 0;
        while v < 4
            invariant
                v <= 4,
                colour == block.spec_colour(),
                (n.0 as int, n.1 as int, n.2 as int) == face.normal(),
                start.0 <= MAX_EDGE && start.1 <= MAX_EDGE && start.2 <= MAX_EDGE && len
                    <= MAX_EDGE,
                -0x1_0000_0000_0000 <= origin.0 <= 0x1_0000_0000_0000,
                -0x1_0000_0000_0000 <= origin.1 <= 0x1_0000_0000_0000,
                -0x1_0000_0000_0000 <= origin.2 <= 0x1_0000_0000_0000,
                o == (origin.0 as int, origin.1 as int, origin.2 as int),
                q == (Quad {
                    face,
                    block,
                    i: start.0 as int,
                    j: start.1 as int,
                    k: start.2 as int,
                    len: len as int,
                    axis,
                }),
                self.indices@ == old(self).indices@,
                self.vertices@ == old(self).vertices@ + quad_vertices(q, o).subrange(0, v as int),
            decreases 4 - v,
        {
            let c = face.cube_corner(v);
            let dx: i64 = if axis == Axis::X && c.0 != 0 {
                len as i64
            } else {
                c.0 as i64
            };
            let dy: i64 = if axis == Axis::Y && c.1 != 0 {
                len as i64
            } else {
                c.1 as i64
            };
            let dz: i64 = if axis == Axis::Z && c.2 != 0 {
                len as i64
            } else {
                c.2 as i64
            };
            let vertex = Vertex {
                x: origin.0 + start.0 as i64 + dx,
                y: origin.1 + start.1 as i64 + dy,
                z: origin.2 + start.2 as i64 + dz,
                r: colour.r,
                g: colour.g,
                b: colour.b,
                a: colour.a,
                nx: n.0,
                ny: n.1,
                nz: n.2,
            };
            assert(vertex == quad_vertex(q, o, v as int));
            assert(quad_vertices(q, o)[v as int] == quad_vertex(q, o, v as int));
            self.vertices.push(vertex);
            assert(self.vertices@ == old(self).vertices@ + quad_vertices(q, o).subrange(
                0,
                v + 1,
            ));
            v = v + 1;
        }
        assert(quad_vertices(q, o).subrange(0, 4) == quad_vertices(q, o));
        self.indices.push(base);
        self.indices.push(base + 1);
        self.indices.push(base + 2);
        self.indices.push(base);
        self.indices.push(base + 2);
        self.indices.push(base + 3);
        proof {
            let after = quads.push(q);
            assert(after.drop_last() == quads);
            assert(after.last() == q);
            assert(self.indices@ == old(self).indices@ + quad_indices(4 * (quads.len() as int)));
        }
    }
}

impl ChunkData {
    /// The world position of the first cell of the chunk.
    pub fn first_cell(&self) -> (o: (i64, i64, i64))
        requires
            self.wf(),
        ensures
            (o.0 as int, o.1 as int, o.2 as int) == self.origin(),
            -0x1_0000_0000_0000 <= o.0 <= 0x1_0000_0000_0000,
            -0x1_0000_0000_0000 <= o.1 <= 0x1_0000_0000_0000,
            -0x1_0000_0000_0000 <= o.2 <= 0x1_0000_0000_0000,
    {
        proof {
            let s = self.size as int;
            let (x, y, z) = (self.cc.x as int, self.cc.y as int, self.cc.z as int);
            assert(-0x1_0000_0000_0000 <= s * x <= 0x1_0000_0000_0000 && -0x1_0000_0000_0000 <= s
                * y <= 0x1_0000_0000_0000 && -0x1_0000_0000_0000 <= s * z <= 0x1_0000_0000_0000)
                by (nonlinear_arith)
                requires
                    1 <= s <= 390,
                    -0x8000_0000 <= x < 0x8000_0000,
                    -0x8000_0000 <= y < 0x8000_0000,
                    -0x8000_0000 <= z < 0x8000_0000,
            ;
        }
        let s = self.size as i64;
        (s * (self.cc.x as i64), s * (self.cc.y as i64), s * (self.cc.z as i64))
    }

    /// The place in the block array of the cell behind the face `face` of the
    /// cell `(i, j, k)`, or `None` where that cell lies outside the chunk.
    pub fn behind(&self, i: usize, j: usize, k: usize, face: Face) -> (r: Option<usize>)
        requires
            self.wf(),
            in_chunk(self.size as int, i as int, j as int, k as int),
        ensures
            ({
                let n = face.normal();
                let (ni, nj, nk) = (i + n.0, j + n.1, k + n.2);
                match r {
                    Some(at) => in_chunk(self.size as int, ni, nj, nk) && at == cell_index(
                        self.size as int,
                        ni,
                        nj,
                        nk,
                    ) && at < self.blocks@.len(),
                    None => !in_chunk(self.size as int, ni, nj, nk),
                }
            }),
    {
        let s = self.size;
        let idx = self.index(i, j, k);
        let ghost (si, ii, ji, ki) = (s as int, i as int, j as int, k as int);
        proof {
            lemma_volume_bound(si);
            lemma_neighbour_index(si, ii, ji, ki);
        }
        match face {
            Face::PosZ => {
                if k + 1 < s {
                    proof {
                        lemma_cell_index(si, ii, ji, ki + 1);
                    }
                    Some(idx + s)
                } else {
                    None
                }
            },
            Face::NegZ => {
                if k > 0 {
                    proof {
                        lemma_cell_index(si, ii, ji, ki - 1);
                    }
                    Some(idx - s)
                } else {
                    None
                }
            },
            Face::NegY => {
                if j > 0 {
                    proof {
                        lemma_cell_index(si, ii, ji - 1, ki);
                    }
                    Some(idx - s * s)
                } else {
                    None
                }
            },
            Face::PosY => {
                if j + 1 < s {
                    proof {
                        lemma_cell_index(si, ii, ji + 1, ki);
                    }
                    Some(idx + s * s)
                } else {
                    None
                }
            },
            Face::PosX => {
                if i + 1 < s {
                    proof {
                        lemma_cell_index(si, ii + 1, ji, ki);
                    }
                    Some(idx + 1)
                } else {
                    None
                }
            },
            Face::NegX => {
                if i > 0 {
                    proof {
                        lemma_cell_index(si, ii - 1, ji, ki);
                    }
                    Some(idx - 1)
                } else {
                    None
                }
            },
        }
    }

    /// What the face `face` of the cell `(i, j, k)` shows in the given pass:
    /// the cell's material, or nothing where the pass does not draw the cell
    /// or the face is hidden by the cell behind it.
    pub fn visible_face(&self, pass: Pass, i: usize, j: usize, k: usize, face: Face) -> (m: Option<
        Block,
    >)
        requires
            self.wf(),
            in_chunk(self.size as int, i as int, j as int, k as int),
        ensures
            m == face_material(pass, self.blocks@, self.size as int, i as int, j as int, k as int, face),
    {
        let b = self.block(i, j, k);
        if !pass.accepts(b) {
            return None;
        }
        let hidden = match self.behind(i, j, k, face) {
            Some(at) => pass.accepts(self.blocks[at]),
            None => false,
        };
        if hidden {
            None
        } else {
            Some(b)
        }
    }

    /// What cell `t` of the row `(a, b)` shows on its face of direction
    /// `face`.
    fn row_face(&self, pass: Pass, face: Face, a: usize, b: usize, t: usize) -> (m: Option<Block>)
        requires
            self.wf(),
            a < self.size,
            b < self.size,
            t < self.size,
        ensures
            m == line(pass, self.blocks@, self.size as int, face, a as int, b as int, t as int),
            m matches Some(block) ==> block != Block::Air,
    {
        match face {
            Face::PosX | Face::NegX => self.visible_face(pass, b, a, t, face),
            _ => self.visible_face(pass, t, a, b, face),
        }
    }

    /// Appends the merged quads of one row.
    fn merge_row(
        &self,
        pass: Pass,
        face: Face,
        a: usize,
        b: usize,
        origin: (i64, i64, i64),
        out: &mut MeshBuffers,
        Ghost(before): Ghost<Seq<Quad>>,
    )
        requires
            self.wf(),
            a < self.size,
            b < self.size,
            (origin.0 as int, origin.1 as int, origin.2 as int) == self.origin(),
            -0x1_0000_0000_0000 <= origin.0 <= 0x1_0000_0000_0000,
            -0x1_0000_0000_0000 <= origin.1 <= 0x1_0000_0000_0000,
            -0x1_0000_0000_0000 <= origin.2 <= 0x1_0000_0000_0000,
            old(out).holds(before, self.origin()),
            before.len() + self.size <= MAX_QUADS,
        ensures
            final(out).holds(
                before + row_quads(
                    pass,
                    self.blocks@,
                    self.size as int,
                    face,
                    a as int,
                    b as int,
                    self.size as int,
                ),
                self.origin(),
            ),
    {
        let s = self.size;
        let ghost bl = self.blocks@;
        let ghost si = s as int;
        let ghost (ai, bi) = (a as int, b as int);
        let mut t: usize = 0;
        let mut greed: usize = 1;
        let mut cur = self.row_face(pass, face, a, b, 0);
        assert(before + row_quads(pass, bl, si, face, ai, bi, 0) == before);
        while t < s
            invariant
                self.wf(),
                s == self.size,
                bl == self.blocks@,
                si == s as int,
                ai == a as int,
                bi == b as int,
                a < s,
                b < s,
                t <= s,
                1 <= greed <= t + 1,
                (origin.0 as int, origin.1 as int, origin.2 as int) == self.origin(),
                -0x1_0000_0000_0000 <= origin.0 <= 0x1_0000_0000_0000,
                -0x1_0000_0000_0000 <= origin.1 <= 0x1_0000_0000_0000,
                -0x1_0000_0000_0000 <= origin.2 <= 0x1_0000_0000_0000,
                before.len() + s <= MAX_QUADS,
                row_quads(pass, bl, si, face, ai, bi, t as int).len() <= t,
                out.holds(before + row_quads(pass, bl, si, face, ai, bi, t as int), self.origin()),
                t < s ==> cur == line(pass, bl, si, face, ai, bi, t as int),
                t < s && cur is Some ==> t + 1 - greed == run_start(
                    pass,
                    bl,
                    si,
                    face,
                    ai,
                    bi,
                    t as int,
                ),
                cur matches Some(block) ==> block != Block::Air,
            decreases s - t,
        {
            let next = if t + 1 < s {
                self.row_face(pass, face, a, b, t + 1)
            } else {
                None
            };
            let ghost done = row_quads(pass, bl, si, face, ai, bi, t as int);
            match cur {
                None => {
                    greed = 1;
                },
                Some(block) => {
                    let same = match next {
                        Some(other) => other == block,
                        None => false,
                    };
                    if same {
                        greed = greed + 1;
                    } else {
                        let first = t + 1 - greed;
                        let start = match face {
                            Face::PosX | Face::NegX => (b, a, first),
                            _ => (first, a, b),
                        };
                        let axis = match face {
                            Face::PosX | Face::NegX => Axis::Z,
                            _ => Axis::X,
                        };
                        assert(run_ends(pass, bl, si, face, ai, bi, t as int));
                        out.push_quad(origin, face, block, start, greed, axis, Ghost(before + done));
                        assert((before + done).push(run_quad(pass, bl, si, face, ai, bi, t as int))
                            == before + done.push(run_quad(pass, bl, si, face, ai, bi, t as int)));
                        greed = 1;
                    }
                },
            }
            cur = next;
            t = t + 1;
        }
    }

    /// Appends the merged quads of all rows of one layer.
    fn merge_band(
        &self,
        pass: Pass,
        face: Face,
        a: usize,
        origin: (i64, i64, i64),
        out: &mut MeshBuffers,
        Ghost(before): Ghost<Seq<Quad>>,
    )
        requires
            self.wf(),
            a < self.size,
            (origin.0 as int, origin.1 as int, origin.2 as int) == self.origin(),
            -0x1_0000_0000_0000 <= origin.0 <= 0x1_0000_0000_0000,
            -0x1_0000_0000_0000 <= origin.1 <= 0x1_0000_0000_0000,
            -0x1_0000_0000_0000 <= origin.2 <= 0x1_0000_0000_0000,
            old(out).holds(before, self.origin()),
            before.len() + self.size * self.size <= MAX_QUADS,
        ensures
            final(out).holds(
                before + band_quads(
                    pass,
                    self.blocks@,
                    self.size as int,
                    face,
                    a as int,
                    self.size as int,
                ),
                self.origin(),
            ),
    {
        let s = self.size;
        let ghost bl = self.blocks@;
        let ghost si = s as int;
        let ghost ai = a as int;
        let mut b: usize = 0;
        assert(before + band_quads(pass, bl, si, face, ai, 0) == before);
        while b < s
            invariant
                self.wf(),
                s == self.size,
                bl == self.blocks@,
                si == s as int,
                ai == a as int,
                a < s,
                b <= s,
                (origin.0 as int, origin.1 as int, origin.2 as int) == self.origin(),
                -0x1_0000_0000_0000 <= origin.0 <= 0x1_0000_0000_0000,
                -0x1_0000_0000_0000 <= origin.1 <= 0x1_0000_0000_0000,
                -0x1_0000_0000_0000 <= origin.2 <= 0x1_0000_0000_0000,
                before.len() + s * s <= MAX_QUADS,
                out.holds(before + band_quads(pass, bl, si, face, ai, b as int), self.origin()),
            decreases s - b,
        {
            let ghost done = band_quads(pass, bl, si, face, ai, b as int);
            proof {
                lemma_band_len(pass, bl, si, face, ai, b as int);
                assert(b * s + s <= s * s) by (nonlinear_arith)
                    requires
                        0 <= b < s,
                ;
            }
            self.merge_row(pass, face, a, b, origin, out, Ghost(before + done));
            assert((before + done) + row_quads(pass, bl, si, face, ai, b as int, si) == before + (
            done + row_quads(pass, bl, si, face, ai, b as int, si)));
            b = b + 1;
        }
    }

    /// Appends the merged quads of one direction.
    fn merge_face(
        &self,
        pass: Pass,
        face: Face,
        origin: (i64, i64, i64),
        out: &mut MeshBuffers,
        Ghost(before): Ghost<Seq<Quad>>,
    )
        requires
            self.wf(),
            (origin.0 as int, origin.1 as int, origin.2 as int) == self.origin(),
            -0x1_0000_0000_0000 <= origin.0 <= 0x1_0000_0000_0000,
            -0x1_0000_0000_0000 <= origin.1 <= 0x1_0000_0000_0000,
            -0x1_0000_0000_0000 <= origin.2 <= 0x1_0000_0000_0000,
            old(out).holds(before, self.origin()),
            before.len() + volume(self.size as int) <= MAX_QUADS,
        ensures
            final(out).holds(
                before + face_quads(pass, self.blocks@, self.size as int, face, self.size as int),
                self.origin(),
            ),
    {
        let s = self.size;
        let ghost bl = self.blocks@;
        let ghost si = s as int;
        let mut a: usize = 0;
        assert(before + face_quads(pass, bl, si, face, 0) == before);
        while a < s
            invariant
                self.wf(),
                s == self.size,
                bl == self.blocks@,
                si == s as int,
                a <= s,
                (origin.0 as int, origin.1 as int, origin.2 as int) == self.origin(),
                -0x1_0000_0000_0000 <= origin.0 <= 0x1_0000_0000_0000,
                -0x1_0000_0000_0000 <= origin.1 <= 0x1_0000_0000_0000,
                -0x1_0000_0000_0000 <= origin.2 <= 0x1_0000_0000_0000,
                before.len() + volume(si) <= MAX_QUADS,
                out.holds(before + face_quads(pass, bl, si, face, a as int), self.origin()),
            decreases s - a,
        {
            let ghost done = face_quads(pass, bl, si, face, a as int);
            proof {
                lemma_face_len(pass, bl, si, face, a as int);
                assert(a * (s * s) + s * s <= s * s * s) by (nonlinear_arith)
                    requires
                        0 <= a < s,
                ;
            }
            self.merge_band(pass, face, a, origin, out, Ghost(before + done));
            assert((before + done) + band_quads(pass, bl, si, face, a as int, si) == before + (done
                + band_quads(pass, bl, si, face, a as int, si)));
            a = a + 1;
        }
    }

    /// The streams of the chunk's surface in one pass, with neighbouring
    /// faces of a row merged.
    pub fn merged_buffers(&self, pass: Pass) -> (out: MeshBuffers)
        requires
            self.wf(),
        ensures
            out.holds(merged_quads(pass, self.blocks@, self.size as int), self.origin()),
    {
        let origin = self.first_cell();
        let mut out = MeshBuffers::new();
        let ghost bl = self.blocks@;
        let ghost si = self.size as int;
        let mut f: usize = 0;
        while f < 6
            invariant
                self.wf(),
                bl == self.blocks@,
                si == self.size as int,
                f <= 6,
                (origin.0 as int, origin.1 as int, origin.2 as int) == self.origin(),
                -0x1_0000_0000_0000 <= origin.0 <= 0x1_0000_0000_0000,
                -0x1_0000_0000_0000 <= origin.1 <= 0x1_0000_0000_0000,
                -0x1_0000_0000_0000 <= origin.2 <= 0x1_0000_0000_0000,
                out.holds(merged_upto(pass, bl, si, f as int), self.origin()),
            decreases 6 - f,
        {
            let ghost done = merged_upto(pass, bl, si, f as int);
            proof {
                lemma_merged_len(pass, bl, si, f as int);
                lemma_volume_bound(si);
                let vol = volume(si);
                assert(f * vol + vol <= 6 * vol) by (nonlinear_arith)
                    requires
                        0 <= f < 6,
                        0 <= vol,
                ;
            }
            self.merge_face(pass, Face::from_index(f), origin, &mut out, Ghost(done));
            f = f + 1;
        }
        out
    }
}

impl ChunkData {
    /// Appends the visible faces of one cell.
    fn cell_faces(
        &self,
        pass: Pass,
        i: usize,
        j: usize,
        k: usize,
        origin: (i64, i64, i64),
        out: &mut MeshBuffers,
        Ghost(before): Ghost<Seq<Quad>>,
    )
        requires
            self.wf(),
            in_chunk(self.size as int, i as int, j as int, k as int),
            (origin.0 as int, origin.1 as int, origin.2 as int) == self.origin(),
            -0x1_0000_0000_0000 <= origin.0 <= 0x1_0000_0000_0000,
            -0x1_0000_0000_0000 <= origin.1 <= 0x1_0000_0000_0000,
            -0x1_0000_0000_0000 <= origin.2 <= 0x1_0000_0000_0000,
            old(out).holds(before, self.origin()),
            before.len() + 6 <= MAX_QUADS,
        ensures
            final(out).holds(
                before + cell_quads(
                    pass,
                    self.blocks@,
                    self.size as int,
                    i as int,
                    j as int,
                    k as int,
                    6,
                ),
                self.origin(),
            ),
    {
        let ghost bl = self.blocks@;
        let ghost si = self.size as int;
        let ghost (ii, ji, ki) = (i as int, j as int, k as int);
        let mut f: usize = 0;
        assert(before + cell_quads(pass, bl, si, ii, ji, ki, 0) == before);
        while f < 6
            invariant
                self.wf(),
                bl == self.blocks@,
                si == self.size as int,
                (ii, ji, ki) == (i as int, j as int, k as int),
                in_chunk(si, ii, ji, ki),
                f <= 6,
                (origin.0 as int, origin.1 as int, origin.2 as int) == self.origin(),
                -0x1_0000_0000_0000 <= origin.0 <= 0x1_0000_0000_0000,
                -0x1_0000_0000_0000 <= origin.1 <= 0x1_0000_0000_0000,
                -0x1_0000_0000_0000 <= origin.2 <= 0x1_0000_0000_0000,
                before.len() + 6 <= MAX_QUADS,
                cell_quads(pass, bl, si, ii, ji, ki, f as int).len() <= f,
                out.holds(before + cell_quads(pass, bl, si, ii, ji, ki, f as int), self.origin()),
            decreases 6 - f,
        {
            let face = Face::from_index(f);
            let ghost done = cell_quads(pass, bl, si, ii, ji, ki, f as int);
            match self.visible_face(pass, i, j, k, face) {
                Some(block) => {
                    let axis = match face {
                        Face::PosX | Face::NegX => Axis::Z,
                        _ => Axis::X,
                    };
                    out.push_quad(origin, face, block, (i, j, k), 1, axis, Ghost(before + done));
                    assert((before + done).push(unit_quad(face, block, ii, ji, ki)) == before
                        + done.push(unit_quad(face, block, ii, ji, ki)));
                },
                None => {},
            }
            f = f + 1;
        }
    }

    /// Appends the visible faces of the cells of one row.
    fn strip_faces(
        &self,
        pass: Pass,
        j: usize,
        k: usize,
        origin: (i64, i64, i64),
        out: &mut MeshBuffers,
        Ghost(before): Ghost<Seq<Quad>>,
    )
        requires
            self.wf(),
            j < self.size,
            k < self.size,
            (origin.0 as int, origin.1 as int, origin.2 as int) == self.origin(),
            -0x1_0000_0000_0000 <= origin.0 <= 0x1_0000_0000_0000,
            -0x1_0000_0000_0000 <= origin.1 <= 0x1_0000_0000_0000,
            -0x1_0000_0000_0000 <= origin.2 <= 0x1_0000_0000_0000,
            old(out).holds(before, self.origin()),
            before.len() + 6 * self.size <= MAX_QUADS,
        ensures
            final(out).holds(
                before + strip_quads(
                    pass,
                    self.blocks@,
                    self.size as int,
                    j as int,
                    k as int,
                    self.size as int,
                ),
                self.origin(),
            ),
    {
        let s = self.size;
        let ghost bl = self.blocks@;
        let ghost si = s as int;
        let ghost (ji, ki) = (j as int, k as int);
        let mut i: usize = 0;
        assert(before + strip_quads(pass, bl, si, ji, ki, 0) == before);
        while i < s
            invariant
                self.wf(),
                s == self.size,
                bl == self.blocks@,
                si == s as int,
                (ji, ki) == (j as int, k as int),
                j < s,
                k < s,
                i <= s,
                (origin.0 as int, origin.1 as int, origin.2 as int) == self.origin(),
                -0x1_0000_0000_0000 <= origin.0 <= 0x1_0000_0000_0000,
                -0x1_0000_0000_0000 <= origin.1 <= 0x1_0000_0000_0000,
                -0x1_0000_0000_0000 <= origin.2 <= 0x1_0000_0000_0000,
                before.len() + 6 * s <= MAX_QUADS,
                out.holds(before + strip_quads(pass, bl, si, ji, ki, i as int), self.origin()),
            decreases s - i,
        {
            let ghost done = strip_quads(pass, bl, si, ji, ki, i as int);
            proof {
                lemma_strip_len(pass, bl, si, ji, ki, i as int);
            }
            self.cell_faces(pass, i, j, k, origin, out, Ghost(before + done));
            assert((before + done) + cell_quads(pass, bl, si, i as int, ji, ki, 6) == before + (done
                + cell_quads(pass, bl, si, i as int, ji, ki, 6)));
            i = i + 1;
        }
    }

    /// Appends the visible faces of the cells of one layer.
    fn layer_faces(
        &self,
        pass: Pass,
        j: usize,
        origin: (i64, i64, i64),
        out: &mut MeshBuffers,
        Ghost(before): Ghost<Seq<Quad>>,
    )
        requires
            self.wf(),
            j < self.size,
            (origin.0 as int, origin.1 as int, origin.2 as int) == self.origin(),
            -0x1_0000_0000_0000 <= origin.0 <= 0x1_0000_0000_0000,
            -0x1_0000_0000_0000 <= origin.1 <= 0x1_0000_0000_0000,
            -0x1_0000_0000_0000 <= origin.2 <= 0x1_0000_0000_0000,
            old(out).holds(before, self.origin()),
            before.len() + 6 * (self.size * self.size) <= MAX_QUADS,
        ensures
            final(out).holds(
                before + layer_quads(
                    pass,
                    self.blocks@,
                    self.size as int,
                    j as int,
                    self.size as int,
                ),
                self.origin(),
            ),
    {
        let s = self.size;
        let ghost bl = self.blocks@;
        let ghost si = s as int;
        let ghost ji = j as int;
        let mut k: usize = 0;
        assert(before + layer_quads(pass, bl, si, ji, 0) == before);
        while k < s
            invariant
                self.wf(),
                s == self.size,
                bl == self.blocks@,
                si == s as int,
                ji == j as int,
                j < s,
                k <= s,
                (origin.0 as int, origin.1 as int, origin.2 as int) == self.origin(),
                -0x1_0000_0000_0000 <= origin.0 <= 0x1_0000_0000_0000,
                -0x1_0000_0000_0000 <= origin.1 <= 0x1_0000_0000_0000,
                -0x1_0000_0000_0000 <= origin.2 <= 0x1_0000_0000_0000,
                before.len() + 6 * (s * s) <= MAX_QUADS,
                out.holds(before + layer_quads(pass, bl, si, ji, k as int), self.origin()),
            decreases s - k,
        {
            let ghost done = layer_quads(pass, bl, si, ji, k as int);
            proof {
                lemma_layer_len(pass, bl, si, ji, k as int);
                assert(6 * (k * s) + 6 * s <= 6 * (s * s)) by (nonlinear_arith)
                    requires
                        0 <= k < s,
                ;
            }
            self.strip_faces(pass, j, k, origin, out, Ghost(before + done));
            assert((before + done) + strip_quads(pass, bl, si, ji, k as int, si) == before + (done
                + strip_quads(pass, bl, si, ji, k as int, si)));
            k = k + 1;
        }
    }

    /// The streams of the chunk's surface in one pass, one quad for each
    /// visible face.
    pub fn unmerged_buffers(&self, pass: Pass) -> (out: MeshBuffers)
        requires
            self.wf(),
        ensures
            out.holds(unmerged_quads(pass, self.blocks@, self.size as int), self.origin()),
    {
        let s = self.size;
        let origin = self.first_cell();
        let mut out = MeshBuffers::new();
        let ghost bl = self.blocks@;
        let ghost si = s as int;
        let mut j: usize = 0;
        while j < s
            invariant
                self.wf(),
                s == self.size,
                bl == self.blocks@,
                si == s as int,
                j <= s,
                (origin.0 as int, origin.1 as int, origin.2 as int) == self.origin(),
                -0x1_0000_0000_0000 <= origin.0 <= 0x1_0000_0000_0000,
                -0x1_0000_0000_0000 <= origin.1 <= 0x1_0000_0000_0000,
                -0x1_0000_0000_0000 <= origin.2 <= 0x1_0000_0000_0000,
                out.holds(unmerged_upto(pass, bl, si, j as int), self.origin()),
            decreases s - j,
        {
            let ghost done = unmerged_upto(pass, bl, si, j as int);
            proof {
                lemma_unmerged_len(pass, bl, si, j as int);
                lemma_volume_bound(si);
                assert(6 * (j * (s * s)) + 6 * (s * s) <= 6 * (s * s * s)) by (nonlinear_arith)
                    requires
                        0 <= j < s,
                ;
            }
            self.layer_faces(pass, j, origin, &mut out, Ghost(done));
            j = j + 1;
        }
        out
    }

    /// The streams of the solid surface with neighbouring faces merged.
    pub fn opaque_buffers_opt(&self) -> (out: MeshBuffers)
        requires
            self.wf(),
        ensures
            out.holds(merged_quads(Pass::Opaque, self.blocks@, self.size as int), self.origin()),
    {
        self.merged_buffers(Pass::Opaque)
    }

    /// The streams of the solid surface, one quad for each visible face.
    pub fn opaque_buffers(&self) -> (out: MeshBuffers)
        requires
            self.wf(),
        ensures
            out.holds(unmerged_quads(Pass::Opaque, self.blocks@, self.size as int), self.origin()),
    {
        self.unmerged_buffers(Pass::Opaque)
    }

    /// The streams the solid surface is drawn with, or `None` where the chunk
    /// shows no solid face.
    pub fn new_opaque_mesh(&self) -> (mesh: Option<MeshBuffers>)
        requires
            self.wf(),
        ensures
            mesh is None <==> merged_quads(Pass::Opaque, self.blocks@, self.size as int).len()
                == 0,
            mesh matches Some(m) ==> m.holds(
                merged_quads(Pass::Opaque, self.blocks@, self.size as int),
                self.origin(),
            ),
    {
        let out = self.opaque_buffers_opt();
        proof {
            lemma_stream_lengths(
                merged_quads(Pass::Opaque, self.blocks@, self.size as int),
                self.origin(),
            );
        }
        if out.indices.len() == 0 {
            None
        } else {
            Some(out)
        }
    }

    /// The streams the water surface is drawn with, or `None` where the chunk
    /// shows no face of water.
    pub fn new_transparent_mesh(&self) -> (mesh: Option<MeshBuffers>)
        requires
            self.wf(),
        ensures
            mesh is None <==> unmerged_quads(
                Pass::Transparent,
                self.blocks@,
                self.size as int,
            ).len() == 0,
            mesh matches Some(m) ==> m.holds(
                unmerged_quads(Pass::Transparent, self.blocks@, self.size as int),
                self.origin(),
            ),
    {
        let out = self.unmerged_buffers(Pass::Transparent);
        proof {
            lemma_stream_lengths(
                unmerged_quads(Pass::Transparent, self.blocks@, self.size as int),
                self.origin(),
            );
        }
        if out.indices.len() == 0 {
            None
        } else {
            Some(out)
        }
    }
}

/// A cell has at most one quad for each of its first `n` directions.
pub proof fn lemma_cell_len(pass: Pass, blocks: Seq<Block>, s: int, i: int, j: int, k: int, n: int)
    requires
        0 <= n,
    ensures
        cell_quads(pass, blocks, s, i, j, k, n).len() <= n,
    decreases n,
{
    if n > 0 {
        lemma_cell_len(pass, blocks, s, i, j, k, n - 1);
    }
}

/// The first `n` cells of a row have at most six quads each.
pub proof fn lemma_strip_len(pass: Pass, blocks: Seq<Block>, s: int, j: int, k: int, n: int)
    requires
        0 <= n,
    ensures
        strip_quads(pass, blocks, s, j, k, n).len() <= 6 * n,
    decreases n,
{
    if n > 0 {
        lemma_strip_len(pass, blocks, s, j, k, n - 1);
        lemma_cell_len(pass, blocks, s, n - 1, j, k, 6);
    }
}

/// The first `n` rows of a layer have at most six quads for each cell.
pub proof fn lemma_layer_len(pass: Pass, blocks: Seq<Block>, s: int, j: int, n: int)
    requires
        0 <= n,
        0 <= s,
    ensures
        layer_quads(pass, blocks, s, j, n).len() <= 6 * (n * s),
    decreases n,
{
    if n > 0 {
        lemma_layer_len(pass, blocks, s, j, n - 1);
        lemma_strip_len(pass, blocks, s, j, n - 1, s);
        assert((n - 1) * s + s == n * s) by (nonlinear_arith);
    }
}

/// The lowest `n` layers have at most six quads for each cell.
pub proof fn lemma_unmerged_len(pass: Pass, blocks: Seq<Block>, s: int, n: int)
    requires
        0 <= n,
        0 <= s,
    ensures
        unmerged_upto(pass, blocks, s, n).len() <= 6 * (n * (s * s)),
    decreases n,
{
    if n > 0 {
        lemma_unmerged_len(pass, blocks, s, n - 1);
        lemma_layer_len(pass, blocks, s, n - 1, s);
        assert((n - 1) * (s * s) + s * s == n * (s * s)) by (nonlinear_arith);
    }
}

/// Whether the list holds, for each column before `upto`, the encoding of
/// what the column shows.
pub open spec fn columns_filled(
    list: Seq<BlockRLE>,
    blocks: Seq<Block>,
    s: int,
    upto: (int, int, int),
) -> bool {
    forall|f: int, k: int, i: int|
        0 <= f < 6 && 0 <= k < s && 0 <= i < s && earlier((f, k, i), upto) ==> (
        #[trigger] list[column_index(s, f, k, i)])@ == rle(
            column_blocks(blocks, s, Face::of(f), i, k, s),
        )
}

impl ChunkData {
    /// The encoding of what one column shows on its faces of one direction.
    fn column_rle(&self, face: Face, i: usize, k: usize) -> (col: BlockRLE)
        requires
            self.wf(),
            i < self.size,
            k < self.size,
        ensures
            col@ == rle(
                column_blocks(self.blocks@, self.size as int, face, i as int, k as int, self.size as int),
            ),
    {
        let s = self.size;
        let ghost bl = self.blocks@;
        let ghost si = s as int;
        let ghost (ii, ki) = (i as int, k as int);
        let mut col = BlockRLE::new();
        let mut j: usize = 0;
        assert(column_blocks(bl, si, face, ii, ki, 0) == Seq::<Block>::empty());
        while j < s
            invariant
                self.wf(),
                s == self.size,
                bl == self.blocks@,
                si == s as int,
                (ii, ki) == (i as int, k as int),
                i < s,
                k < s,
                j <= s,
                col@ == rle(column_blocks(bl, si, face, ii, ki, j as int)),
            decreases s - j,
        {
            let block = match self.visible_face(Pass::Opaque, i, j, k, face) {
                Some(b) => b,
                None => Block::Air,
            };
            proof {
                let now = column_blocks(bl, si, face, ii, ki, j as int);
                let next = column_blocks(bl, si, face, ii, ki, j + 1);
                assert(next.drop_last() == now);
                assert(next.last() == block);
                lemma_rle_total(now);
            }
            col.push(block);
            j = j + 1;
        }
        col
    }

    /// For each direction and each column, the run-length encoding of what
    /// the cells of the column show on their solid faces of that direction,
    /// from the bottom up, with air where a face is not drawn. The column at
    /// `(i, k)` of direction number `f` stands at
    /// `f * size * size + k * size + i`.
    pub fn faces_rle(&self) -> (ret: Vec<BlockRLE>)
        requires
            self.wf(),
        ensures
            ret@.len() == 6 * (self.size * self.size),
            forall|f: int, k: int, i: int|
                0 <= f < 6 && 0 <= k < self.size && 0 <= i < self.size ==> (
                #[trigger] ret@[column_index(self.size as int, f, k, i)])@ == rle(
                    column_blocks(self.blocks@, self.size as int, Face::of(f), i, k, self.size as int),
                ),
    {
        let s = self.size;
        let ghost bl = self.blocks@;
        let ghost si = s as int;
        let mut ret: Vec<BlockRLE> = Vec::new();
        let mut f: usize = 0;
        while f < 6
            invariant
                self.wf(),
                s == self.size,
                bl == self.blocks@,
                si == s as int,
                f <= 6,
                ret@.len() == f * (si * si),
                columns_filled(ret@, bl, si, (f as int, 0, 0)),
            decreases 6 - f,
        {
            let face = Face::from_index(f);
            let mut k: usize = 0;
            while k < s
                invariant
                    self.wf(),
                    s == self.size,
                    bl == self.blocks@,
                    si == s as int,
                    f < 6,
                    face == Face::of(f as int),
                    k <= s,
                    ret@.len() == f * (si * si) + k * si,
                    columns_filled(ret@, bl, si, (f as int, k as int, 0)),
                decreases s - k,
            {
                let mut i: usize = 0;
                while i < s
                    invariant
                        self.wf(),
                        s == self.size,
                        bl == self.blocks@,
                        si == s as int,
                        f < 6,
                        face == Face::of(f as int),
                        k < s,
                        i <= s,
                        ret@.len() == f * (si * si) + k * si + i,
                        columns_filled(ret@, bl, si, (f as int, k as int, i as int)),
                    decreases s - i,
                {
                    let col = self.column_rle(face, i, k);
                    let ghost before = ret@;
                    ret.push(col);
                    proof {
                        lemma_column_index(si, f as int, k as int, i as int);
                        assert forall|f2: int, k2: int, i2: int|
                            0 <= f2 < 6 && 0 <= k2 < si && 0 <= i2 < si && earlier(
                                (f2, k2, i2),
                                (f as int, k as int, i + 1),
                            ) implies (#[trigger] ret@[column_index(si, f2, k2, i2)])@ == rle(
                            column_blocks(bl, si, Face::of(f2), i2, k2, si),
                        ) by {
                            if earlier((f2, k2, i2), (f as int, k as int, i as int)) {
                                lemma_column_order(si, (f2, k2, i2), (f as int, k as int, i as int));
                                lemma_column_index(si, f2, k2, i2);
                                assert(ret@[column_index(si, f2, k2, i2)] == before[column_index(
                                    si,
                                    f2,
                                    k2,
                                    i2,
                                )]);
                            } else {
                                assert(f2 == f && k2 == k && i2 == i);
                            }
                        }
                    }
                    i = i + 1;
                }
                proof {
                    assert(k * si + si == (k + 1) * si) by (nonlinear_arith);
                }
                k = k + 1;
            }
            proof {
                assert(f * (si * si) + s * si == (f + 1) * (si * si)) by (nonlinear_arith)
                    requires
                        s == si,
                ;
            }
            f = f + 1;
        }
        ret
    }

    /// Appends the quads of one column's encoding.
    fn column_mesh(
        &self,
        col: &BlockRLE,
        face: Face,
        i: usize,
        k: usize,
        origin: (i64, i64, i64),
        out: &mut MeshBuffers,
        Ghost(before): Ghost<Seq<Quad>>,
    )
        requires
            self.wf(),
            i < self.size,
            k < self.size,
            col@ == rle(
                column_blocks(self.blocks@, self.size as int, face, i as int, k as int, self.size as int),
            ),
            (origin.0 as int, origin.1 as int, origin.2 as int) == self.origin(),
            -0x1_0000_0000_0000 <= origin.0 <= 0x1_0000_0000_0000,
            -0x1_0000_0000_0000 <= origin.1 <= 0x1_0000_0000_0000,
            -0x1_0000_0000_0000 <= origin.2 <= 0x1_0000_0000_0000,
            old(out).holds(before, self.origin()),
            before.len() + self.size <= MAX_QUADS,
        ensures
            final(out).holds(
                before + column_quads(self.blocks@, self.size as int, face, i as int, k as int),
                self.origin(),
            ),
    {
        let s = self.size;
        let ghost bl = self.blocks@;
        let ghost si = s as int;
        let ghost (ii, ki) = (i as int, k as int);
        let ghost runs = col@;
        proof {
            lemma_rle_total(column_blocks(bl, si, face, ii, ki, si));
            lemma_run_total_bounds(runs, runs.len() as int);
            lemma_runs_len(runs, runs.len() as int);
        }
        let count = col.len();
        let mut n: usize = 0;
        let mut j: usize = 0;
        assert(before + run_quads(runs, face, ii, ki, 0) == before);
        while n < count
            invariant
                self.wf(),
                s == self.size,
                si == s as int,
                (ii, ki) == (i as int, k as int),
                i < s,
                k < s,
                runs == col@,
                count == runs.len(),
                n <= count,
                j == run_total(runs, n as int),
                run_total(runs, runs.len() as int) == s,
                runs.len() <= s,
                forall|m: int| 0 <= m <= runs.len() ==> 0 <= #[trigger] run_total(runs, m) <= s,
                forall|m: int|
                    0 <= m < runs.len() ==> run_total(runs, m) + (#[trigger] runs[m]).1 <= s,
                (origin.0 as int, origin.1 as int, origin.2 as int) == self.origin(),
                -0x1_0000_0000_0000 <= origin.0 <= 0x1_0000_0000_0000,
                -0x1_0000_0000_0000 <= origin.1 <= 0x1_0000_0000_0000,
                -0x1_0000_0000_0000 <= origin.2 <= 0x1_0000_0000_0000,
                before.len() + s <= MAX_QUADS,
                run_quads(runs, face, ii, ki, n as int).len() <= n,
                out.holds(before + run_quads(runs, face, ii, ki, n as int), self.origin()),
            decreases count - n,
        {
            let (block, quantity) = col.run(n);
            let ghost done = run_quads(runs, face, ii, ki, n as int);
            assert(run_total(runs, n as int) + runs[n as int].1 <= s);
            if block != Block::Air {
                out.push_quad(
                    origin,
                    face,
                    block,
                    (i, j, k),
                    quantity as usize,
                    Axis::Y,
                    Ghost(before + done),
                );
                assert((before + done).push(
                    Quad {
                        face,
                        block,
                        i: ii,
                        j: j as int,
                        k: ki,
                        len: quantity as int,
                        axis: Axis::Y,
                    },
                ) == before + done.push(
                    Quad {
                        face,
                        block,
                        i: ii,
                        j: j as int,
                        k: ki,
                        len: quantity as int,
                        axis: Axis::Y,
                    },
                ));
            }
            j = j + quantity as usize;
            n = n + 1;
        }
    }

    /// The streams the solid surface is drawn with when faces are merged
    /// along the columns, or `None` where the chunk shows no solid face.
    pub fn new_opaque_mesh_rle(&self) -> (mesh: Option<MeshBuffers>)
        requires
            self.wf(),
        ensures
            mesh is None <==> upright_quads(self.blocks@, self.size as int).len() == 0,
            mesh matches Some(m) ==> m.holds(
                upright_quads(self.blocks@, self.size as int),
                self.origin(),
            ),
    {
        let s = self.size;
        let ghost bl = self.blocks@;
        let ghost si = s as int;
        let face_rles = self.faces_rle();
        let origin = self.first_cell();
        let mut out = MeshBuffers::new();
        proof {
            lemma_volume_bound(si);
        }
        let mut f: usize = 0;
        while f < 6
            invariant
                self.wf(),
                s == self.size,
                bl == self.blocks@,
                si == s as int,
                f <= 6,
                1 <= si * si <= 152100,
                face_rles@.len() == 6 * (si * si),
                forall|f2: int, k2: int, i2: int|
                    0 <= f2 < 6 && 0 <= k2 < si && 0 <= i2 < si ==> (
                    #[trigger] face_rles@[column_index(si, f2, k2, i2)])@ == rle(
                        column_blocks(bl, si, Face::of(f2), i2, k2, si),
                    ),
                (origin.0 as int, origin.1 as int, origin.2 as int) == self.origin(),
                -0x1_0000_0000_0000 <= origin.0 <= 0x1_0000_0000_0000,
                -0x1_0000_0000_0000 <= origin.1 <= 0x1_0000_0000_0000,
                -0x1_0000_0000_0000 <= origin.2 <= 0x1_0000_0000_0000,
                out.holds(upright_upto(bl, si, f as int), self.origin()),
            decreases 6 - f,
        {
            let face = Face::from_index(f);
            let ghost done_f = upright_upto(bl, si, f as int);
            let mut i: usize = 0;
            assert(done_f + upright_face_quads(bl, si, face, 0) == done_f);
            while i < s
                invariant
                    self.wf(),
                    s == self.size,
                    bl == self.blocks@,
                    si == s as int,
                    f < 6,
                    face == Face::of(f as int),
                    i <= s,
                    1 <= si * si <= 152100,
                    done_f == upright_upto(bl, si, f as int),
                    face_rles@.len() == 6 * (si * si),
                    forall|f2: int, k2: int, i2: int|
                        0 <= f2 < 6 && 0 <= k2 < si && 0 <= i2 < si ==> (
                        #[trigger] face_rles@[column_index(si, f2, k2, i2)])@ == rle(
                            column_blocks(bl, si, Face::of(f2), i2, k2, si),
                        ),
                    (origin.0 as int, origin.1 as int, origin.2 as int) == self.origin(),
                    -0x1_0000_0000_0000 <= origin.0 <= 0x1_0000_0000_0000,
                    -0x1_0000_0000_0000 <= origin.1 <= 0x1_0000_0000_0000,
                    -0x1_0000_0000_0000 <= origin.2 <= 0x1_0000_0000_0000,
                    out.holds(
                        done_f + upright_face_quads(bl, si, face, i as int),
                        self.origin(),
                    ),
                decreases s - i,
            {
                let ghost done_i = done_f + upright_face_quads(bl, si, face, i as int);
                let mut k: usize = 0;
                assert(done_i + slab_quads(bl, si, face, i as int, 0) == done_i);
                while k < s
                    invariant
                        self.wf(),
                        s == self.size,
                        bl == self.blocks@,
                        si == s as int,
                        f < 6,
                        face == Face::of(f as int),
                        i < s,
                        k <= s,
                        1 <= si * si <= 152100,
                        done_f == upright_upto(bl, si, f as int),
                        done_i == done_f + upright_face_quads(bl, si, face, i as int),
                        face_rles@.len() == 6 * (si * si),
                        forall|f2: int, k2: int, i2: int|
                            0 <= f2 < 6 && 0 <= k2 < si && 0 <= i2 < si ==> (
                            #[trigger] face_rles@[column_index(si, f2, k2, i2)])@ == rle(
                                column_blocks(bl, si, Face::of(f2), i2, k2, si),
                            ),
                        (origin.0 as int, origin.1 as int, origin.2 as int) == self.origin(),
                        -0x1_0000_0000_0000 <= origin.0 <= 0x1_0000_0000_0000,
                        -0x1_0000_0000_0000 <= origin.1 <= 0x1_0000_0000_0000,
                        -0x1_0000_0000_0000 <= origin.2 <= 0x1_0000_0000_0000,
                        out.holds(done_i + slab_quads(bl, si, face, i as int, k as int), self.origin()),
                    decreases s - k,
                {
                    let ghost done_k = slab_quads(bl, si, face, i as int, k as int);
                    proof {
                        lemma_column_index(si, f as int, k as int, i as int);
                        lemma_upright_len(bl, si, f as int);
                        lemma_upright_face_len(bl, si, face, i as int);
                        lemma_slab_len(bl, si, face, i as int, k as int);
                        lemma_volume_bound(si);
                        assert(f * (si * si * si) + i * (si * si) + k * si + si <= 6 * (si * si
                            * si)) by (nonlinear_arith)
                            requires
                                0 <= f < 6,
                                0 <= i < si,
                                0 <= k < si,
                        ;
                        assert(0 <= f * (si * si) && 0 <= k * si && f * (si * si) <= 5 * (si * si))
                            by (nonlinear_arith)
                            requires
                                0 <= f < 6,
                                0 <= k,
                                0 <= si,
                        ;
                    }
                    let at = f * (s * s) + k * s + i;
                    let col = &face_rles[at];
                    assert(col@ == face_rles@[column_index(si, f as int, k as int, i as int)]@);
                    self.column_mesh(col, face, i, k, origin, &mut out, Ghost(done_i + done_k));
                    assert((done_i + done_k) + column_quads(bl, si, face, i as int, k as int)
                        == done_i + (done_k + column_quads(bl, si, face, i as int, k as int)));
                    k = k + 1;
                }
                assert((done_f + upright_face_quads(bl, si, face, i as int)) + slab_quads(
                    bl,
                    si,
                    face,
                    i as int,
                    si,
                ) == done_f + (upright_face_quads(bl, si, face, i as int) + slab_quads(
                    bl,
                    si,
                    face,
                    i as int,
                    si,
                )));
                i = i + 1;
            }
            f = f + 1;
        }
        proof {
            lemma_stream_lengths(upright_quads(bl, si), self.origin());
        }
        if out.indices.len() == 0 {
            None
        } else {
            Some(out)
        }
    }
}

/// Runs of at least one block each are no more than the blocks they stand
/// for, and they give no more quads than there are runs.
pub proof fn lemma_runs_len(runs: Seq<(Block, u32)>, n: int)
    requires
        0 <= n <= runs.len(),
        forall|m: int| 0 <= m < runs.len() ==> (#[trigger] runs[m]).1 >= 1,
    ensures
        n <= run_total(runs, n),
        forall|face: Face, i: int, k: int| #[trigger] run_quads(runs, face, i, k, n).len() <= n,
    decreases n,
{
    if n > 0 {
        lemma_runs_len(runs, n - 1);
        assert forall|face: Face, i: int, k: int| #[trigger]
            run_quads(runs, face, i, k, n).len() <= n by {
            assert(run_quads(runs, face, i, k, n - 1).len() <= n - 1);
        }
    }
}

/// A column has at most one quad for each of its cells.
pub proof fn lemma_column_len(blocks: Seq<Block>, s: int, face: Face, i: int, k: int)
    requires
        0 <= s <= u32::MAX,
    ensures
        column_quads(blocks, s, face, i, k).len() <= s,
{
    let runs = rle(column_blocks(blocks, s, face, i, k, s));
    lemma_rle_total(column_blocks(blocks, s, face, i, k, s));
    lemma_runs_len(runs, runs.len() as int);
}

/// The first `n` columns at `i` have at most `n * s` quads.
pub proof fn lemma_slab_len(blocks: Seq<Block>, s: int, face: Face, i: int, n: int)
    requires
        0 <= n,
        0 <= s <= u32::MAX,
    ensures
        slab_quads(blocks, s, face, i, n).len() <= n * s,
    decreases n,
{
    if n > 0 {
        lemma_slab_len(blocks, s, face, i, n - 1);
        lemma_column_len(blocks, s, face, i, n - 1);
        assert((n - 1) * s + s == n * s) by (nonlinear_arith);
    }
}

/// The columns with `i` below `n` have at most `n * s * s` quads of one
/// direction.
pub proof fn lemma_upright_face_len(blocks: Seq<Block>, s: int, face: Face, n: int)
    requires
        0 <= n,
        0 <= s <= u32::MAX,
    ensures
        upright_face_quads(blocks, s, face, n).len() <= n * (s * s),
    decreases n,
{
    if n > 0 {
        lemma_upright_face_len(blocks, s, face, n - 1);
        lemma_slab_len(blocks, s, face, n - 1, s);
        assert((n - 1) * (s * s) + s * s == n * (s * s)) by (nonlinear_arith);
    }
}

/// The first `n` directions have at most `n` quads for each cell.
pub proof fn lemma_upright_len(blocks: Seq<Block>, s: int, n: int)
    requires
        0 <= n,
        0 <= s <= u32::MAX,
    ensures
        upright_upto(blocks, s, n).len() <= n * (s * s * s),
    decreases n,
{
    if n > 0 {
        lemma_upright_len(blocks, s, n - 1);
        lemma_upright_face_len(blocks, s, Face::of(n - 1), s);
        assert((n - 1) * (s * s * s) + s * (s * s) == n * (s * s * s)) by (nonlinear_arith);
    }
}

/// A row has at most one quad for each of its cells.
pub proof fn lemma_row_len(
    pass: Pass,
    blocks: Seq<Block>,
    s: int,
    face: Face,
    a: int,
    b: int,
    n: int,
)
    requires
        0 <= n,
    ensures
        row_quads(pass, blocks, s, face, a, b, n).len() <= n,
    decreases n,
{
    if n > 0 {
        lemma_row_len(pass, blocks, s, face, a, b, n - 1);
    }
}

/// The first `n` rows of a layer have at most `n * s` quads.
pub proof fn lemma_band_len(pass: Pass, blocks: Seq<Block>, s: int, face: Face, a: int, n: int)
    requires
        0 <= n,
        0 <= s,
    ensures
        band_quads(pass, blocks, s, face, a, n).len() <= n * s,
    decreases n,
{
    if n > 0 {
        lemma_band_len(pass, blocks, s, face, a, n - 1);
        lemma_row_len(pass, blocks, s, face, a, n - 1, s);
        assert((n - 1) * s + s == n * s) by (nonlinear_arith);
    }
}

/// The lowest `n` layers have at most `n * s * s` quads of one direction.
pub proof fn lemma_face_len(pass: Pass, blocks: Seq<Block>, s: int, face: Face, n: int)
    requires
        0 <= n,
        0 <= s,
    ensures
        face_quads(pass, blocks, s, face, n).len() <= n * (s * s),
    decreases n,
{
    if n > 0 {
        lemma_face_len(pass, blocks, s, face, n - 1);
        lemma_band_len(pass, blocks, s, face, n - 1, s);
        assert((n - 1) * (s * s) + s * s == n * (s * s)) by (nonlinear_arith);
    }
}

/// The first `n` directions have at most `n` quads for each cell.
pub proof fn lemma_merged_len(pass: Pass, blocks: Seq<Block>, s: int, n: int)
    requires
        0 <= n,
        0 <= s,
    ensures
        merged_upto(pass, blocks, s, n).len() <= n * volume(s),
    decreases n,
{
    if n > 0 {
        lemma_merged_len(pass, blocks, s, n - 1);
        lemma_face_len(pass, blocks, s, Face::of(n - 1), s);
        assert((n - 1) * (s * s * s) + s * (s * s) == n * (s * s * s)) by (nonlinear_arith);
    }
}

/// A chunk of the largest edge has fewer than 2^26 cells.
pub proof fn lemma_volume_bound(s: int)
    requires
        valid_edge(s),
    ensures
        1 <= s * s <= 152100,
        1 <= volume(s) <= 59319000,
{
    assert(1 <= s * s <= 152100 && 1 <= s * s * s <= 59319000) by (nonlinear_arith)
        requires
            1 <= s <= 390,
    ;
}

/// The name of a vertex array on the graphics card, `glow::NativeVertexArray`.
/// Nothing is claimed of it: the library only carries such a name from the
/// place where the array was made to the place where it is drawn or deleted.
#[verifier::external_type_specification]
#[verifier::external_body]
pub struct ExNativeVertexArray(glow::NativeVertexArray);

/// The name of a buffer on the graphics card, `glow::NativeBuffer`. Nothing
/// is claimed of it: the library only carries such a name from the place
/// where the buffer was made to the place where it is used or deleted.
#[verifier::external_type_specification]
#[verifier::external_body]
pub struct ExNativeBuffer(glow::NativeBuffer);

/// The render resources of the solid surface of a chunk.
pub struct ChunkOpaqueMesh {
    pub vao: glow::NativeVertexArray,
    pub vbo: glow::NativeBuffer,
    pub ebo: glow::NativeBuffer,
    /// Length of the index stream that was uploaded.
    pub num_triangles: i32,
}

/// The render resources of the water surface of a chunk.
pub struct ChunkTransparentMesh {
    pub vao: glow::NativeVertexArray,
    pub vbo: glow::NativeBuffer,
    pub ebo: glow::NativeBuffer,
    /// Length of the index stream that was uploaded.
    pub num_triangles: i32,
}

impl ChunkOpaqueMesh {
    /// Records the resources an index stream of `num_triangles` indices was
    /// uploaded to.
    pub fn new(
        vao: glow::NativeVertexArray,
        vbo: glow::NativeBuffer,
        ebo: glow::NativeBuffer,
        num_triangles: i32,
    ) -> (m: ChunkOpaqueMesh)
        ensures
            m == (ChunkOpaqueMesh { vao, vbo, ebo, num_triangles }),
    {
        ChunkOpaqueMesh { vao, vbo, ebo, num_triangles }
    }
}

impl ChunkTransparentMesh {
    /// Records the resources an index stream of `num_triangles` indices was
    /// uploaded to.
    pub fn new(
        vao: glow::NativeVertexArray,
        vbo: glow::NativeBuffer,
        ebo: glow::NativeBuffer,
        num_triangles: i32,
    ) -> (m: ChunkTransparentMesh)
        ensures
            m == (ChunkTransparentMesh { vao, vbo, ebo, num_triangles }),
    {
        ChunkTransparentMesh { vao, vbo, ebo, num_triangles }
    }
}

/// Whether `mesh` is what a surface of the given quads is drawn with:
/// nothing where there is no quad, else the streams of the quads.
pub open spec fn streams_of(quads: Seq<Quad>, origin: (int, int, int), mesh: Option<MeshBuffers>) -> bool {
    &&& mesh is None <==> quads.len() == 0
    &&& mesh matches Some(m) ==> m.holds(quads, origin)
}

/// Whether render resources with the given number of indices, or none, are
/// what a surface of the given quads is drawn with: none where there is no
/// quad, else resources with six indices for each quad.
pub open spec fn resources_of(quads: Seq<Quad>, count: Option<i32>) -> bool {
    &&& count is None <==> quads.len() == 0
    &&& count matches Some(n) ==> n == 6 * quads.len()
}

/// A chunk whose blocks have come back from generation and whose streams are
/// built, waiting for its render resources.
pub struct MeshedChunk {
    pub data: ChunkData,
    pub opaque: Option<MeshBuffers>,
    pub transparent: Option<MeshBuffers>,
}

/// A chunk that could not be built, with all that was handed in for it.
pub struct Rejected {
    pub meshed: MeshedChunk,
    pub opaque_mesh: Option<ChunkOpaqueMesh>,
    pub transparent_mesh: Option<ChunkTransparentMesh>,
}

/// A chunk that can be drawn: its blocks and the render resources of its two
/// surfaces, each present exactly where the surface has a face.
pub struct Chunk {
    pub data: ChunkData,
    pub opaque_mesh: Option<ChunkOpaqueMesh>,
    pub transparent_mesh: Option<ChunkTransparentMesh>,
}

impl ChunkData {
    /// The quads of the solid surface.
    pub open spec fn opaque_quads(&self) -> Seq<Quad> {
        merged_quads(Pass::Opaque, self.blocks@, self.size as int)
    }

    /// The quads of the water surface.
    pub open spec fn transparent_quads(&self) -> Seq<Quad> {
        unmerged_quads(Pass::Transparent, self.blocks@, self.size as int)
    }
}

impl MeshedChunk {
    /// Whether the streams are those of the two surfaces of the data.
    pub open spec fn wf(&self) -> bool {
        &&& self.data.wf()
        &&& streams_of(self.data.opaque_quads(), self.data.origin(), self.opaque)
        &&& streams_of(self.data.transparent_quads(), self.data.origin(), self.transparent)
    }

    /// Builds the streams of both surfaces of a chunk.
    pub fn new(data: ChunkData) -> (m: MeshedChunk)
        requires
            data.wf(),
        ensures
            m.wf(),
            m.data == data,
    {
        let opaque = data.new_opaque_mesh();
        let transparent = data.new_transparent_mesh();
        MeshedChunk { data, opaque, transparent }
    }
}

/// Tells whether resources with `count` indices, or none, go with the given
/// streams, or none.
fn goes_with(mesh: &Option<MeshBuffers>, count: Option<i32>, Ghost(quads): Ghost<Seq<Quad>>, Ghost(
    origin,
): Ghost<(int, int, int)>) -> (ok: bool)
    requires
        streams_of(quads, origin, *mesh),
    ensures
        ok == resources_of(quads, count),
{
    proof {
        lemma_stream_lengths(quads, origin);
    }
    match mesh {
        Some(m) => match count {
            Some(n) => n >= 0 && n as usize == m.indices.len(),
            None => false,
        },
        None => count.is_none(),
    }
}

impl Chunk {
    /// Whether each surface has render resources exactly where it has a
    /// face, with as many indices as its streams hold.
    pub open spec fn wf(&self) -> bool {
        &&& self.data.wf()
        &&& resources_of(
            self.data.opaque_quads(),
            match self.opaque_mesh {
                Some(m) => Some(m.num_triangles),
                None => None,
            },
        )
        &&& resources_of(
            self.data.transparent_quads(),
            match self.transparent_mesh {
                Some(m) => Some(m.num_triangles),
                None => None,
            },
        )
    }

    /// Makes a chunk of meshed data and the render resources its streams
    /// were uploaded to. This fails, and hands everything back, where a
    /// surface with faces comes without resources, a surface without faces
    /// comes with some, or the resources hold another number of indices than
    /// the stream.
    pub fn new(
        meshed: MeshedChunk,
        opaque_mesh: Option<ChunkOpaqueMesh>,
        transparent_mesh: Option<ChunkTransparentMesh>,
    ) -> (r: Result<Chunk, Rejected>)
        requires
            meshed.wf(),
        ensures
            r is Ok <==> resources_of(
                meshed.data.opaque_quads(),
                match opaque_mesh {
                    Some(m) => Some(m.num_triangles),
                    None => None,
                },
            ) && resources_of(
                meshed.data.transparent_quads(),
                match transparent_mesh {
                    Some(m) => Some(m.num_triangles),
                    None => None,
                },
            ),
            r matches Ok(chunk) ==> chunk.wf() && chunk.data == meshed.data && chunk.opaque_mesh
                == opaque_mesh && chunk.transparent_mesh == transparent_mesh,
            r matches Err(e) ==> e.meshed == meshed && e.opaque_mesh == opaque_mesh
                && e.transparent_mesh == transparent_mesh,
    {
        let opaque_count = match &opaque_mesh {
            Some(m) => Some(m.num_triangles),
            None => None,
        };
        let transparent_count = match &transparent_mesh {
            Some(m) => Some(m.num_triangles),
            None => None,
        };
        let ok = goes_with(
            &meshed.opaque,
            opaque_count,
            Ghost(meshed.data.opaque_quads()),
            Ghost(meshed.data.origin()),
        ) && goes_with(
            &meshed.transparent,
            transparent_count,
            Ghost(meshed.data.transparent_quads()),
            Ghost(meshed.data.origin()),
        );
        if ok {
            Ok(Chunk { data: meshed.data, opaque_mesh, transparent_mesh })
        } else {
            Err(Rejected { meshed, opaque_mesh, transparent_mesh })
        }
    }
}

/// A chunk whose solid surface has no face has no render resources for it,
/// and one whose water surface has no face has none for that.
pub proof fn lemma_no_faces_no_resources(chunk: Chunk)
    requires
        chunk.wf(),
    ensures
        chunk.data.opaque_quads().len() == 0 <==> chunk.opaque_mesh is None,
        chunk.data.transparent_quads().len() == 0 <==> chunk.transparent_mesh is None,
{
}

/// No stream is built for a surface without faces.
pub proof fn lemma_no_faces_no_streams(meshed: MeshedChunk)
    requires
        meshed.wf(),
    ensures
        meshed.data.opaque_quads().len() == 0 <==> meshed.opaque is None,
        meshed.data.transparent_quads().len() == 0 <==> meshed.transparent is None,
{
}

} // verus!
