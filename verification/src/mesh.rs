//! The mathematical model of surface extraction: which faces of a block grid
//! are visible, how visible faces merge into quads, and how quads are laid out
//! in a vertex stream and an index stream.

use crate::chunk::Block;
use vstd::prelude::*;

verus! {

/// One of the two streams a chunk is drawn with.
#[derive(Copy, Clone, PartialEq, Eq, Structural, Debug)]
pub enum Pass {
    /// Solid materials.
    Opaque,
    /// Water.
    Transparent,
}

impl Pass {
    /// Whether the material belongs to this pass. A cell is drawn in a pass
    /// when its material belongs to it, and a face is hidden in a pass when
    /// the material behind it belongs to it.
    pub open spec fn takes(self, b: Block) -> bool {
        match self {
            Pass::Opaque => b.opaque(),
            Pass::Transparent => b == Block::Water,
        }
    }

    /// Tells whether the material belongs to this pass.
    pub fn accepts(&self, b: Block) -> (r: bool)
        ensures
            r == self.takes(b),
    {
        match self {
            Pass::Opaque => b.is_opaque(),
            Pass::Transparent => b == Block::Water,
        }
    }
}

/// An axis of the grid.
#[derive(Copy, Clone, PartialEq, Eq, Structural, Debug)]
pub enum Axis {
    X,
    Y,
    Z,
}

/// The six directions a face can look in, in the order the streams list them.
#[derive(Copy, Clone, PartialEq, Eq, Structural, Debug)]
pub enum Face {
    PosZ,
    NegZ,
    NegY,
    PosY,
    PosX,
    NegX,
}

impl Face {
    /// The face with the given number, 0 to 5.
    pub open spec fn of(n: int) -> Face {
        if n == 0 {
            Face::PosZ
        } else if n == 1 {
            Face::NegZ
        } else if n == 2 {
            Face::NegY
        } else if n == 3 {
            Face::PosY
        } else if n == 4 {
            Face::PosX
        } else {
            Face::NegX
        }
    }

    /// The unit vector the face looks along.
    pub open spec fn normal(self) -> (int, int, int) {
        match self {
            Face::PosZ => (0, 0, 1),
            Face::NegZ => (0, 0, -1),
            Face::NegY => (0, -1, 0),
            Face::PosY => (0, 1, 0),
            Face::PosX => (1, 0, 0),
            Face::NegX => (-1, 0, 0),
        }
    }

    /// Corner `v` (0 to 3) of the face on the unit cube, each coordinate 0
    /// or 1. The corners go round the face so that both triangles of a quad
    /// wind the same way.
    pub open spec fn corner(self, v: int) -> (int, int, int) {
        match self {
            Face::PosZ => if v == 0 {
                (1, 0, 1)
            } else if v == 1 {
                (0, 0, 1)
            } else if v == 2 {
                (0, 1, 1)
            } else {
                (1, 1, 1)
            },
            Face::NegZ => if v == 0 {
                (0, 1, 0)
            } else if v == 1 {
                (0, 0, 0)
            } else if v == 2 {
                (1, 0, 0)
            } else {
                (1, 1, 0)
            },
            Face::NegY => if v == 0 {
                (0, 0, 1)
            } else if v == 1 {
                (1, 0, 1)
            } else if v == 2 {
                (1, 0, 0)
            } else {
                (0, 0, 0)
            },
            Face::PosY => if v == 0 {
                (0, 1, 1)
            } else if v == 1 {
                (0, 1, 0)
            } else if v == 2 {
                (1, 1, 0)
            } else {
                (1, 1, 1)
            },
            Face::PosX => if v == 0 {
                (1, 1, 0)
            } else if v == 1 {
                (1, 0, 0)
            } else if v == 2 {
                (1, 0, 1)
            } else {
                (1, 1, 1)
            },
            Face::NegX => if v == 0 {
                (0, 0, 0)
            } else if v == 1 {
                (0, 1, 0)
            } else if v == 2 {
                (0, 1, 1)
            } else {
                (0, 0, 1)
            },
        }
    }

    /// The axis along which neighbouring faces of this direction are merged:
    /// x for the faces that look along y or z, z for those that look along x.
    pub open spec fn run_axis(self) -> Axis {
        match self {
            Face::PosX | Face::NegX => Axis::Z,
            _ => Axis::X,
        }
    }

    /// The face with the given number.
    pub fn from_index(n: usize) -> (f: Face)
        requires
            n < 6,
        ensures
            f == Face::of(n as int),
    {
        if n == 0 {
            Face::PosZ
        } else if n == 1 {
            Face::NegZ
        } else if n == 2 {
            Face::NegY
        } else if n == 3 {
            Face::PosY
        } else if n == 4 {
            Face::PosX
        } else {
            Face::NegX
        }
    }

    /// The unit vector the face looks along.
    pub fn unit(&self) -> (n: (i8, i8, i8))
        ensures
            (n.0 as int, n.1 as int, n.2 as int) == self.normal(),
    {
        match self {
            Face::PosZ => (0, 0, 1),
            Face::NegZ => (0, 0, -1),
            Face::NegY => (0, -1, 0),
            Face::PosY => (0, 1, 0),
            Face::PosX => (1, 0, 0),
            Face::NegX => (-1, 0, 0),
        }
    }

    /// Corner `v` of the face on the unit cube.
    pub fn cube_corner(&self, v: usize) -> (c: (u8, u8, u8))
        requires
            v < 4,
        ensures
            (c.0 as int, c.1 as int, c.2 as int) == self.corner(v as int),
            c.0 <= 1 && c.1 <= 1 && c.2 <= 1,
    {
        match self {
            Face::PosZ => if v == 0 {
                (1, 0, 1)
            } else if v == 1 {
                (0, 0, 1)
            } else if v == 2 {
                (0, 1, 1)
            } else {
                (1, 1, 1)
            },
            Face::NegZ => if v == 0 {
                (0, 1, 0)
            } else if v == 1 {
                (0, 0, 0)
            } else if v == 2 {
                (1, 0, 0)
            } else {
                (1, 1, 0)
            },
            Face::NegY => if v == 0 {
                (0, 0, 1)
            } else if v == 1 {
                (1, 0, 1)
            } else if v == 2 {
                (1, 0, 0)
            } else {
                (0, 0, 0)
            },
            Face::PosY => if v == 0 {
                (0, 1, 1)
            } else if v == 1 {
                (0, 1, 0)
            } else if v == 2 {
                (1, 1, 0)
            } else {
                (1, 1, 1)
            },
            Face::PosX => if v == 0 {
                (1, 1, 0)
            } else if v == 1 {
                (1, 0, 0)
            } else if v == 2 {
                (1, 0, 1)
            } else {
                (1, 1, 1)
            },
            Face::NegX => if v == 0 {
                (0, 0, 0)
            } else if v == 1 {
                (0, 1, 0)
            } else if v == 2 {
                (0, 1, 1)
            } else {
                (0, 0, 1)
            },
        }
    }
}

/// Whether `(i, j, k)` names a cell of a chunk with edge `s`.
pub open spec fn in_chunk(s: int, i: int, j: int, k: int) -> bool {
    0 <= i < s && 0 <= j < s && 0 <= k < s
}

/// Where the cell `(i, j, k)` lies in the block array of a chunk with edge
/// `s`: `i` runs along x, `j` along y, `k` along z.
#[verifier::opaque]
pub open spec fn cell_index(s: int, i: int, j: int, k: int) -> int {
    k * s + j * s * s + i
}

/// The number of cells of a chunk with edge `s`.
pub open spec fn volume(s: int) -> int {
    s * s * s
}

/// The material of the cell `(i, j, k)`.
pub open spec fn block_at(blocks: Seq<Block>, s: int, i: int, j: int, k: int) -> Block {
    blocks[cell_index(s, i, j, k)]
}

/// The material that the face `face` of the cell `(i, j, k)` shows in the
/// given pass, or `None` where the pass draws no such face: the cell's
/// material must belong to the pass, and the cell behind the face must lie
/// outside the chunk or hold a material that does not belong to the pass.
pub open spec fn face_material(
    pass: Pass,
    blocks: Seq<Block>,
    s: int,
    i: int,
    j: int,
    k: int,
    face: Face,
) -> Option<Block> {
    let b = block_at(blocks, s, i, j, k);
    let n = face.normal();
    let (ni, nj, nk) = (i + n.0, j + n.1, k + n.2);
    if pass.takes(b) && !(in_chunk(s, ni, nj, nk) && pass.takes(block_at(blocks, s, ni, nj, nk))) {
        Some(b)
    } else {
        None
    }
}

/// A rectangle of the surface: the face `face` of `len` cells in a row,
/// starting at the cell `(i, j, k)` and going up along `axis`, all of the
/// material `block`.
pub struct Quad {
    pub face: Face,
    pub block: Block,
    pub i: int,
    pub j: int,
    pub k: int,
    pub len: int,
    pub axis: Axis,
}

/// One vertex of a stream: position in world cells, colour in tenths and the
/// unit normal of the face it belongs to.
#[derive(Copy, Clone, PartialEq, Eq, Structural, Debug)]
pub struct Vertex {
    pub x: i64,
    pub y: i64,
    pub z: i64,
    pub r: u8,
    pub g: u8,
    pub b: u8,
    pub a: u8,
    pub nx: i8,
    pub ny: i8,
    pub nz: i8,
}

/// A corner coordinate of the unit cube stretched to `len` cells where the
/// quad runs along that coordinate's axis.
pub open spec fn stretch(c: int, along: bool, len: int) -> int {
    if along && c != 0 {
        len
    } else {
        c
    }
}

/// Corner `v` of the quad `q` in a chunk whose first cell lies at `origin`.
pub open spec fn quad_vertex(q: Quad, origin: (int, int, int), v: int) -> Vertex {
    let c = q.face.corner(v);
    let n = q.face.normal();
    let col = q.block.spec_colour();
    Vertex {
        x: (origin.0 + q.i + stretch(c.0, q.axis == Axis::X, q.len)) as i64,
        y: (origin.1 + q.j + stretch(c.1, q.axis == Axis::Y, q.len)) as i64,
        z: (origin.2 + q.k + stretch(c.2, q.axis == Axis::Z, q.len)) as i64,
        r: col.r,
        g: col.g,
        b: col.b,
        a: col.a,
        nx: n.0 as i8,
        ny: n.1 as i8,
        nz: n.2 as i8,
    }
}

/// The four vertices of a quad, in the order of its corners.
pub open spec fn quad_vertices(q: Quad, origin: (int, int, int)) -> Seq<Vertex> {
    seq![
        quad_vertex(q, origin, 0),
        quad_vertex(q, origin, 1),
        quad_vertex(q, origin, 2),
        quad_vertex(q, origin, 3),
    ]
}

/// The six indices of the two triangles of a quad whose first vertex has the
/// number `base`.
pub open spec fn quad_indices(base: int) -> Seq<u32> {
    seq![
        base as u32,
        (base + 1) as u32,
        (base + 2) as u32,
        base as u32,
        (base + 2) as u32,
        (base + 3) as u32,
    ]
}

/// The vertex stream of a list of quads: four vertices for each, in order.
pub open spec fn vertex_stream(quads: Seq<Quad>, origin: (int, int, int)) -> Seq<Vertex>
    decreases quads.len(),
{
    if quads.len() == 0 {
        Seq::empty()
    } else {
        vertex_stream(quads.drop_last(), origin) + quad_vertices(quads.last(), origin)
    }
}

/// The index stream of `n` quads: six indices for each, in order.
pub open spec fn index_stream(n: nat) -> Seq<u32>
    decreases n,
{
    if n == 0 {
        Seq::empty()
    } else {
        index_stream((n - 1) as nat) + quad_indices(4 * (n - 1))
    }
}

/// The streams of a list of quads have four vertices and six indices for
/// each quad.
pub proof fn lemma_stream_lengths(quads: Seq<Quad>, origin: (int, int, int))
    ensures
        vertex_stream(quads, origin).len() == 4 * quads.len(),
        index_stream(quads.len()).len() == 6 * quads.len(),
    decreases quads.len(),
{
    if quads.len() > 0 {
        lemma_stream_lengths(quads.drop_last(), origin);
    }
}

/// Where the cell `(i, j, k)` lies in the block array, row by row.
pub proof fn lemma_cell_index(s: int, i: int, j: int, k: int)
    requires
        in_chunk(s, i, j, k),
    ensures
        0 <= j * s + k < s * s,
        cell_index(s, i, j, k) == (j * s + k) * s + i,
        0 <= cell_index(s, i, j, k) < volume(s),
{
    reveal(cell_index);
    assert(0 <= j * s + k < s * s && k * s + j * s * s + i == (j * s + k) * s + i && 0 <= (j * s
        + k) * s + i < s * s * s) by (nonlinear_arith)
        requires
            0 <= i < s,
            0 <= j < s,
            0 <= k < s,
    ;
}

/// Cell `t` of the row `(a, b)` along which the faces of direction `face` are
/// merged. `a` is the height of the row; `b` is its z where the row runs
/// along x, its x where it runs along z.
pub open spec fn row_cell(face: Face, a: int, b: int, t: int) -> (int, int, int) {
    match face.run_axis() {
        Axis::Z => (b, a, t),
        _ => (t, a, b),
    }
}

/// What cell `t` of the row `(a, b)` shows on its face of direction `face`.
pub open spec fn line(
    pass: Pass,
    blocks: Seq<Block>,
    s: int,
    face: Face,
    a: int,
    b: int,
    t: int,
) -> Option<Block> {
    let c = row_cell(face, a, b, t);
    face_material(pass, blocks, s, c.0, c.1, c.2, face)
}

/// The first cell of the run that cell `t` of the row belongs to: the run
/// goes back as far as the cells show the same as cell `t`.
pub open spec fn run_start(
    pass: Pass,
    blocks: Seq<Block>,
    s: int,
    face: Face,
    a: int,
    b: int,
    t: int,
) -> int
    decreases t,
{
    if t > 0 && line(pass, blocks, s, face, a, b, t - 1) == line(pass, blocks, s, face, a, b, t) {
        run_start(pass, blocks, s, face, a, b, t - 1)
    } else {
        t
    }
}

/// Whether a run of visible faces ends at cell `t` of the row: the cell shows
/// a face, and the next cell lies outside the chunk or shows something else.
pub open spec fn run_ends(
    pass: Pass,
    blocks: Seq<Block>,
    s: int,
    face: Face,
    a: int,
    b: int,
    t: int,
) -> bool {
    line(pass, blocks, s, face, a, b, t) is Some && (t + 1 == s || line(
        pass,
        blocks,
        s,
        face,
        a,
        b,
        t + 1,
    ) != line(pass, blocks, s, face, a, b, t))
}

/// The quad of the run that ends at cell `t` of the row.
pub open spec fn run_quad(
    pass: Pass,
    blocks: Seq<Block>,
    s: int,
    face: Face,
    a: int,
    b: int,
    t: int,
) -> Quad {
    let first = run_start(pass, blocks, s, face, a, b, t);
    let c = row_cell(face, a, b, first);
    Quad {
        face,
        block: line(pass, blocks, s, face, a, b, t).unwrap(),
        i: c.0,
        j: c.1,
        k: c.2,
        len: t - first + 1,
        axis: face.run_axis(),
    }
}

/// The quads of the runs that end among the first `n` cells of the row, in
/// the order of the cells: one quad for each longest stretch of neighbouring
/// cells that show the same material.
pub open spec fn row_quads(
    pass: Pass,
    blocks: Seq<Block>,
    s: int,
    face: Face,
    a: int,
    b: int,
    n: int,
) -> Seq<Quad>
    decreases n,
{
    if n <= 0 {
        Seq::empty()
    } else {
        let before = row_quads(pass, blocks, s, face, a, b, n - 1);
        if run_ends(pass, blocks, s, face, a, b, n - 1) {
            before.push(run_quad(pass, blocks, s, face, a, b, n - 1))
        } else {
            before
        }
    }
}

/// The quads of the first `n` rows at height `a`.
pub open spec fn band_quads(
    pass: Pass,
    blocks: Seq<Block>,
    s: int,
    face: Face,
    a: int,
    n: int,
) -> Seq<Quad>
    decreases n,
{
    if n <= 0 {
        Seq::empty()
    } else {
        band_quads(pass, blocks, s, face, a, n - 1) + row_quads(pass, blocks, s, face, a, n - 1, s)
    }
}

/// The quads of direction `face` in the lowest `n` layers of the chunk.
pub open spec fn face_quads(pass: Pass, blocks: Seq<Block>, s: int, face: Face, n: int) -> Seq<
    Quad,
>
    decreases n,
{
    if n <= 0 {
        Seq::empty()
    } else {
        face_quads(pass, blocks, s, face, n - 1) + band_quads(pass, blocks, s, face, n - 1, s)
    }
}

/// The merged quads of the first `n` directions.
pub open spec fn merged_upto(pass: Pass, blocks: Seq<Block>, s: int, n: int) -> Seq<Quad>
    decreases n,
{
    if n <= 0 {
        Seq::empty()
    } else {
        merged_upto(pass, blocks, s, n - 1) + face_quads(pass, blocks, s, Face::of(n - 1), s)
    }
}

/// The surface of a chunk in one pass after merging: direction by direction,
/// layer by layer and row by row, one quad for each longest run of
/// neighbouring cells of a row that show the same material.
pub open spec fn merged_quads(pass: Pass, blocks: Seq<Block>, s: int) -> Seq<Quad> {
    merged_upto(pass, blocks, s, 6)
}

/// The quad of a single face of the cell `(i, j, k)`.
pub open spec fn unit_quad(face: Face, block: Block, i: int, j: int, k: int) -> Quad {
    Quad { face, block, i, j, k, len: 1, axis: face.run_axis() }
}

/// The visible faces among the first `n` directions of the cell `(i, j, k)`.
pub open spec fn cell_quads(
    pass: Pass,
    blocks: Seq<Block>,
    s: int,
    i: int,
    j: int,
    k: int,
    n: int,
) -> Seq<Quad>
    decreases n,
{
    if n <= 0 {
        Seq::empty()
    } else {
        let before = cell_quads(pass, blocks, s, i, j, k, n - 1);
        match face_material(pass, blocks, s, i, j, k, Face::of(n - 1)) {
            Some(b) => before.push(unit_quad(Face::of(n - 1), b, i, j, k)),
            None => before,
        }
    }
}

/// The visible faces of the first `n` cells of the row at height `j` and
/// depth `k`.
pub open spec fn strip_quads(pass: Pass, blocks: Seq<Block>, s: int, j: int, k: int, n: int) -> Seq<
    Quad,
>
    decreases n,
{
    if n <= 0 {
        Seq::empty()
    } else {
        strip_quads(pass, blocks, s, j, k, n - 1) + cell_quads(pass, blocks, s, n - 1, j, k, 6)
    }
}

/// The visible faces of the first `n` rows of the layer at height `j`.
pub open spec fn layer_quads(pass: Pass, blocks: Seq<Block>, s: int, j: int, n: int) -> Seq<Quad>
    decreases n,
{
    if n <= 0 {
        Seq::empty()
    } else {
        layer_quads(pass, blocks, s, j, n - 1) + strip_quads(pass, blocks, s, j, n - 1, s)
    }
}

/// The visible faces of the lowest `n` layers.
pub open spec fn unmerged_upto(pass: Pass, blocks: Seq<Block>, s: int, n: int) -> Seq<Quad>
    decreases n,
{
    if n <= 0 {
        Seq::empty()
    } else {
        unmerged_upto(pass, blocks, s, n - 1) + layer_quads(pass, blocks, s, n - 1, s)
    }
}

/// The surface of a chunk in one pass without merging: cell by cell in the
/// order of the block array, one quad for each visible face of the cell.
pub open spec fn unmerged_quads(pass: Pass, blocks: Seq<Block>, s: int) -> Seq<Quad> {
    unmerged_upto(pass, blocks, s, s)
}

/// The indices of the cells next to `(i, j, k)` differ from its own by 1, by
/// `s` and by `s * s`.
pub proof fn lemma_neighbour_index(s: int, i: int, j: int, k: int)
    ensures
        cell_index(s, i + 1, j, k) == cell_index(s, i, j, k) + 1,
        cell_index(s, i - 1, j, k) == cell_index(s, i, j, k) - 1,
        cell_index(s, i, j, k + 1) == cell_index(s, i, j, k) + s,
        cell_index(s, i, j, k - 1) == cell_index(s, i, j, k) - s,
        cell_index(s, i, j + 1, k) == cell_index(s, i, j, k) + s * s,
        cell_index(s, i, j - 1, k) == cell_index(s, i, j, k) - s * s,
{
    reveal(cell_index);
    assert((k + 1) * s == k * s + s && (k - 1) * s == k * s - s && (j + 1) * s * s == j * s * s + s
        * s && (j - 1) * s * s == j * s * s - s * s) by (nonlinear_arith);
}

/// What the face `face` of the cell `(i, j, k)` shows in the given pass, with
/// air standing for a face that is not drawn.
pub open spec fn shown(
    pass: Pass,
    blocks: Seq<Block>,
    s: int,
    i: int,
    j: int,
    k: int,
    face: Face,
) -> Block {
    match face_material(pass, blocks, s, i, j, k, face) {
        Some(b) => b,
        None => Block::Air,
    }
}

/// What the lowest `n` cells of the column at `(i, k)` show on their solid
/// faces of direction `face`, from the bottom up.
pub open spec fn column_blocks(blocks: Seq<Block>, s: int, face: Face, i: int, k: int, n: int) -> Seq<
    Block,
> {
    Seq::new(n as nat, |j: int| shown(Pass::Opaque, blocks, s, i, j, k, face))
}

/// A run-length encoding with one more block at its end: the last run grows
/// by one where it is of the same material, else a new run of one begins.
pub open spec fn rle_push(runs: Seq<(Block, u32)>, b: Block) -> Seq<(Block, u32)> {
    if runs.len() > 0 && runs.last().0 == b {
        runs.update(runs.len() - 1, (b, (runs.last().1 + 1) as u32))
    } else {
        runs.push((b, 1u32))
    }
}

/// The run-length encoding of a sequence of blocks: the materials of its
/// longest stretches of equal blocks, each with the length of the stretch.
pub open spec fn rle(blocks: Seq<Block>) -> Seq<(Block, u32)>
    decreases blocks.len(),
{
    if blocks.len() == 0 {
        Seq::empty()
    } else {
        rle_push(rle(blocks.drop_last()), blocks.last())
    }
}

/// The number of blocks that the first `n` runs stand for.
pub open spec fn run_total(runs: Seq<(Block, u32)>, n: int) -> int
    decreases n,
{
    if n <= 0 {
        0
    } else {
        run_total(runs, n - 1) + runs[n - 1].1
    }
}

/// Where the column at `(i, k)` of direction number `f` stands in a list of
/// all columns: direction by direction, then by `k`, then by `i`.
#[verifier::opaque]
pub open spec fn column_index(s: int, f: int, k: int, i: int) -> int {
    f * (s * s) + k * s + i
}

/// The quads of the first `n` runs of the column at `(i, k)`: one for each
/// run that is not of air, as tall as the run and standing on the blocks of
/// the runs before it.
pub open spec fn run_quads(runs: Seq<(Block, u32)>, face: Face, i: int, k: int, n: int) -> Seq<
    Quad,
>
    decreases n,
{
    if n <= 0 {
        Seq::empty()
    } else {
        let before = run_quads(runs, face, i, k, n - 1);
        let (block, count) = runs[n - 1];
        if block != Block::Air {
            before.push(
                Quad {
                    face,
                    block,
                    i,
                    j: run_total(runs, n - 1),
                    k,
                    len: count as int,
                    axis: Axis::Y,
                },
            )
        } else {
            before
        }
    }
}

/// The quads of the whole column at `(i, k)`.
pub open spec fn column_quads(blocks: Seq<Block>, s: int, face: Face, i: int, k: int) -> Seq<Quad> {
    let runs = rle(column_blocks(blocks, s, face, i, k, s));
    run_quads(runs, face, i, k, runs.len() as int)
}

/// The quads of the first `n` columns at `i`.
pub open spec fn slab_quads(blocks: Seq<Block>, s: int, face: Face, i: int, n: int) -> Seq<Quad>
    decreases n,
{
    if n <= 0 {
        Seq::empty()
    } else {
        slab_quads(blocks, s, face, i, n - 1) + column_quads(blocks, s, face, i, n - 1)
    }
}

/// The quads of direction `face` of the columns with `i` below `n`.
pub open spec fn upright_face_quads(blocks: Seq<Block>, s: int, face: Face, n: int) -> Seq<Quad>
    decreases n,
{
    if n <= 0 {
        Seq::empty()
    } else {
        upright_face_quads(blocks, s, face, n - 1) + slab_quads(blocks, s, face, n - 1, s)
    }
}

/// The quads of the first `n` directions, merged along the columns.
pub open spec fn upright_upto(blocks: Seq<Block>, s: int, n: int) -> Seq<Quad>
    decreases n,
{
    if n <= 0 {
        Seq::empty()
    } else {
        upright_upto(blocks, s, n - 1) + upright_face_quads(blocks, s, Face::of(n - 1), s)
    }
}

/// The solid surface of a chunk with faces merged along the columns:
/// direction by direction, by `i` and then by `k`, one quad for each run of
/// the column's encoding that is not of air.
pub open spec fn upright_quads(blocks: Seq<Block>, s: int) -> Seq<Quad> {
    upright_upto(blocks, s, 6)
}

/// One more block makes the runs stand for one more block, and leaves air
/// out of no run that had none.
pub proof fn lemma_rle_push_total(runs: Seq<(Block, u32)>, b: Block)
    requires
        run_total(runs, runs.len() as int) < u32::MAX,
        forall|n: int| 0 <= n < runs.len() ==> (#[trigger] runs[n]).1 >= 1,
    ensures
        run_total(rle_push(runs, b), rle_push(runs, b).len() as int) == run_total(
            runs,
            runs.len() as int,
        ) + 1,
        forall|n: int| 0 <= n < rle_push(runs, b).len() ==> (#[trigger] rle_push(runs, b)[n]).1 >= 1,
{
    let after = rle_push(runs, b);
    let len = runs.len() as int;
    if runs.len() > 0 && runs.last().0 == b {
        lemma_run_total_same(runs, after, len - 1);
        lemma_run_total_bounds(runs, len);
        assert(run_total(runs, len) == run_total(runs, len - 1) + runs[len - 1].1);
        assert(run_total(after, len) == run_total(after, len - 1) + after[len - 1].1);
    } else {
        lemma_run_total_same(runs, after, len);
        assert(run_total(after, len + 1) == run_total(after, len) + after[len].1);
    }
}

/// Runs that agree in their first `n` places stand for as many blocks there.
pub proof fn lemma_run_total_same(a: Seq<(Block, u32)>, b: Seq<(Block, u32)>, n: int)
    requires
        0 <= n <= a.len(),
        n <= b.len(),
        forall|m: int| 0 <= m < n ==> a[m] == b[m],
    ensures
        run_total(a, n) == run_total(b, n),
    decreases n,
{
    if n > 0 {
        lemma_run_total_same(a, b, n - 1);
    }
}

/// The blocks of the first `m` runs are among those of the first `n`.
pub proof fn lemma_run_total_bounds(runs: Seq<(Block, u32)>, n: int)
    requires
        0 <= n <= runs.len(),
    ensures
        forall|m: int| 0 <= m <= n ==> 0 <= #[trigger] run_total(runs, m) <= run_total(runs, n),
        forall|m: int| 0 <= m < n ==> run_total(runs, m) + (#[trigger] runs[m]).1 <= run_total(runs, n),
    decreases n,
{
    if n > 0 {
        lemma_run_total_bounds(runs, n - 1);
        assert forall|m: int| 0 <= m <= n implies 0 <= #[trigger] run_total(runs, m) <= run_total(
            runs,
            n,
        ) by {
            if m < n {
                assert(run_total(runs, m) <= run_total(runs, n - 1));
            }
        }
        assert forall|m: int| 0 <= m < n implies run_total(runs, m) + (#[trigger] runs[m]).1
            <= run_total(runs, n) by {
            if m < n - 1 {
                assert(run_total(runs, m) + runs[m].1 <= run_total(runs, n - 1));
            }
        }
    }
}

/// The encoding of a sequence stands for as many blocks as the sequence has,
/// in runs of at least one block.
pub proof fn lemma_rle_total(blocks: Seq<Block>)
    requires
        blocks.len() <= u32::MAX,
    ensures
        run_total(rle(blocks), rle(blocks).len() as int) == blocks.len(),
        forall|n: int| 0 <= n < rle(blocks).len() ==> (#[trigger] rle(blocks)[n]).1 >= 1,
    decreases blocks.len(),
{
    if blocks.len() > 0 {
        lemma_rle_total(blocks.drop_last());
        lemma_rle_push_total(rle(blocks.drop_last()), blocks.last());
    }
}

/// Columns are numbered in the order of direction, then `k`, then `i`.
pub proof fn lemma_column_index(s: int, f: int, k: int, i: int)
    requires
        0 <= f < 6,
        0 <= k < s,
        0 <= i < s,
    ensures
        f * (s * s) + k * s <= column_index(s, f, k, i) < f * (s * s) + k * s + s,
        column_index(s, f, k, i) == f * (s * s) + k * s + i,
        f * (s * s) + k * s + s <= (f + 1) * (s * s),
        (f + 1) * (s * s) <= 6 * (s * s),
        0 <= f * (s * s),
        0 <= k * s,
{
    reveal(column_index);
    assert(f * (s * s) + k * s + s <= (f + 1) * (s * s) && (f + 1) * (s * s) <= 6 * (s * s) && 0
        <= f * (s * s) && 0 <= k * s) by (nonlinear_arith)
        requires
            0 <= f < 6,
            0 <= k < s,
    ;
}

/// An earlier column has a smaller number.
pub proof fn lemma_column_order(s: int, a: (int, int, int), b: (int, int, int))
    requires
        0 <= a.0 < 6 && 0 <= a.1 < s && 0 <= a.2 < s,
        0 <= b.0 < 6 && 0 <= b.1 < s && 0 <= b.2 < s,
        a.0 < b.0 || (a.0 == b.0 && (a.1 < b.1 || (a.1 == b.1 && a.2 < b.2))),
    ensures
        column_index(s, a.0, a.1, a.2) < column_index(s, b.0, b.1, b.2),
{
    lemma_column_index(s, a.0, a.1, a.2);
    lemma_column_index(s, b.0, b.1, b.2);
    if a.0 < b.0 {
        assert((a.0 + 1) * (s * s) <= b.0 * (s * s)) by (nonlinear_arith)
            requires
                a.0 + 1 <= b.0,
                0 <= s,
        ;
    } else if a.1 < b.1 {
        assert(a.1 * s + s <= b.1 * s) by (nonlinear_arith)
            requires
                a.1 + 1 <= b.1,
                0 <= s,
        ;
    }
}

/// Whether the triple `a` comes before the triple `b` when triples are
/// compared place by place.
pub open spec fn earlier(a: (int, int, int), b: (int, int, int)) -> bool {
    a.0 < b.0 || (a.0 == b.0 && (a.1 < b.1 || (a.1 == b.1 && a.2 < b.2)))
}

/// The block array lists the cells by `j`, then `k`, then `i`.
pub proof fn lemma_cell_order(s: int, a: (int, int, int), b: (int, int, int))
    requires
        in_chunk(s, a.0, a.1, a.2),
        in_chunk(s, b.0, b.1, b.2),
        earlier((a.1, a.2, a.0), (b.1, b.2, b.0)),
    ensures
        cell_index(s, a.0, a.1, a.2) < cell_index(s, b.0, b.1, b.2),
{
    lemma_cell_index(s, a.0, a.1, a.2);
    lemma_cell_index(s, b.0, b.1, b.2);
    let ra = a.1 * s + a.2;
    let rb = b.1 * s + b.2;
    if a.1 < b.1 {
        assert(a.1 * s + s <= b.1 * s) by (nonlinear_arith)
            requires
                a.1 + 1 <= b.1,
                0 <= s,
        ;
    }
    if ra < rb {
        assert(ra * s + s <= rb * s) by (nonlinear_arith)
            requires
                ra + 1 <= rb,
                0 <= s,
        ;
    }
}

/// Whether the array holds `s`^3 blocks, all of them of the material `m`.
pub open spec fn uniform(blocks: Seq<Block>, s: int, m: Block) -> bool {
    &&& blocks.len() == volume(s)
    &&& forall|n: int| 0 <= n < blocks.len() ==> blocks[n] == m
}

/// Whether the array holds `s`^3 blocks, none of which belongs to the pass.
pub open spec fn vacant(pass: Pass, blocks: Seq<Block>, s: int) -> bool {
    &&& blocks.len() == volume(s)
    &&& forall|n: int| 0 <= n < blocks.len() ==> !pass.takes(blocks[n])
}

/// How many of the two ends of a row of `s` cells the place `t` is: 2 in a
/// row of one cell, 1 at either end of a longer row, 0 inside.
pub open spec fn ends(s: int, t: int) -> int {
    (if t == 0 {
        1int
    } else {
        0
    }) + (if t == s - 1 {
        1int
    } else {
        0
    })
}

/// How many ends of a row of `s` cells lie among its first `n` places.
pub open spec fn ends_before(s: int, n: int) -> int {
    (if n >= 1 {
        1int
    } else {
        0
    }) + (if n == s {
        1int
    } else {
        0
    })
}

/// In a chunk of one solid material a face shows exactly where the cell
/// behind it lies outside the chunk.
pub proof fn lemma_uniform_face(
    blocks: Seq<Block>,
    s: int,
    m: Block,
    i: int,
    j: int,
    k: int,
    face: Face,
)
    requires
        uniform(blocks, s, m),
        m.opaque(),
        in_chunk(s, i, j, k),
    ensures
        face_material(Pass::Opaque, blocks, s, i, j, k, face) == if in_chunk(
            s,
            i + face.normal().0,
            j + face.normal().1,
            k + face.normal().2,
        ) {
            None
        } else {
            Some(m)
        },
{
    lemma_cell_index(s, i, j, k);
    let n = face.normal();
    if in_chunk(s, i + n.0, j + n.1, k + n.2) {
        lemma_cell_index(s, i + n.0, j + n.1, k + n.2);
    }
}

/// In a chunk of one solid material a cell shows one face for each end of a
/// row that it is.
pub proof fn lemma_uniform_cell(blocks: Seq<Block>, s: int, m: Block, i: int, j: int, k: int)
    requires
        uniform(blocks, s, m),
        m.opaque(),
        in_chunk(s, i, j, k),
    ensures
        cell_quads(Pass::Opaque, blocks, s, i, j, k, 6).len() == ends(s, i) + ends(s, j) + ends(s, k),
{
    lemma_uniform_face(blocks, s, m, i, j, k, Face::PosZ);
    lemma_uniform_face(blocks, s, m, i, j, k, Face::NegZ);
    lemma_uniform_face(blocks, s, m, i, j, k, Face::NegY);
    lemma_uniform_face(blocks, s, m, i, j, k, Face::PosY);
    lemma_uniform_face(blocks, s, m, i, j, k, Face::PosX);
    lemma_uniform_face(blocks, s, m, i, j, k, Face::NegX);
    let p = Pass::Opaque;
    assert(cell_quads(p, blocks, s, i, j, k, 0).len() == 0);
    assert(cell_quads(p, blocks, s, i, j, k, 1).len() == if k == s - 1 {
        1int
    } else {
        0
    });
    assert(cell_quads(p, blocks, s, i, j, k, 2).len() == ends(s, k));
    assert(cell_quads(p, blocks, s, i, j, k, 3).len() == ends(s, k) + if j == 0 {
        1int
    } else {
        0
    });
    assert(cell_quads(p, blocks, s, i, j, k, 4).len() == ends(s, k) + ends(s, j));
    assert(cell_quads(p, blocks, s, i, j, k, 5).len() == ends(s, k) + ends(s, j) + if i == s - 1 {
        1int
    } else {
        0
    });
}

/// The faces that the first `n` cells of a row show in a chunk of one solid
/// material.
pub proof fn lemma_uniform_strip(blocks: Seq<Block>, s: int, m: Block, j: int, k: int, n: int)
    requires
        uniform(blocks, s, m),
        m.opaque(),
        0 <= j < s,
        0 <= k < s,
        0 <= n <= s,
    ensures
        strip_quads(Pass::Opaque, blocks, s, j, k, n).len() == n * (ends(s, j) + ends(s, k))
            + ends_before(s, n),
    decreases n,
{
    if n > 0 {
        lemma_uniform_strip(blocks, s, m, j, k, n - 1);
        lemma_uniform_cell(blocks, s, m, n - 1, j, k);
        let e = ends(s, j) + ends(s, k);
        assert((n - 1) * e + e == n * e) by (nonlinear_arith);
    } else {
        assert(n * (ends(s, j) + ends(s, k)) == 0) by (nonlinear_arith)
            requires
                n == 0,
        ;
    }
}

/// The faces that the first `n` rows of a layer show in a chunk of one solid
/// material.
pub proof fn lemma_uniform_layer(blocks: Seq<Block>, s: int, m: Block, j: int, n: int)
    requires
        uniform(blocks, s, m),
        m.opaque(),
        0 <= j < s,
        0 <= n <= s,
    ensures
        layer_quads(Pass::Opaque, blocks, s, j, n).len() == n * (s * ends(s, j)) + s * ends_before(
            s,
            n,
        ) + 2 * n,
    decreases n,
{
    if n > 0 {
        lemma_uniform_layer(blocks, s, m, j, n - 1);
        lemma_uniform_strip(blocks, s, m, j, n - 1, s);
        let a = ends(s, j);
        let b = ends(s, n - 1);
        assert(s * (a + b) == s * a + s * b) by (nonlinear_arith);
        assert((n - 1) * (s * a) + s * a == n * (s * a)) by (nonlinear_arith);
        assert(s * ends_before(s, n - 1) + s * b == s * ends_before(s, n)) by (nonlinear_arith)
            requires
                ends_before(s, n - 1) + b == ends_before(s, n),
        ;
        assert(s * ends_before(s, s) == 2 * s) by (nonlinear_arith)
            requires
                ends_before(s, s) == 2,
        ;
    } else {
        assert(n * (s * ends(s, j)) + s * ends_before(s, n) == 0) by (nonlinear_arith)
            requires
                n == 0,
                ends_before(s, n) == 0,
        ;
    }
}

/// The faces that the lowest `n` layers show in a chunk of one solid
/// material.
pub proof fn lemma_uniform_layers(blocks: Seq<Block>, s: int, m: Block, n: int)
    requires
        1 <= s,
        uniform(blocks, s, m),
        m.opaque(),
        0 <= n <= s,
    ensures
        unmerged_upto(Pass::Opaque, blocks, s, n).len() == (s * s) * ends_before(s, n) + 4 * (s
            * n),
    decreases n,
{
    if n > 0 {
        lemma_uniform_layers(blocks, s, m, n - 1);
        lemma_uniform_layer(blocks, s, m, n - 1, s);
        let b = ends(s, n - 1);
        assert(s * (s * b) == (s * s) * b) by (nonlinear_arith);
        assert((s * s) * ends_before(s, n - 1) + (s * s) * b == (s * s) * ends_before(s, n))
            by (nonlinear_arith)
            requires
                ends_before(s, n - 1) + b == ends_before(s, n),
        ;
        assert(4 * (s * (n - 1)) + 4 * s == 4 * (s * n)) by (nonlinear_arith);
        assert(s * ends_before(s, s) == 2 * s) by (nonlinear_arith)
            requires
                ends_before(s, s) == 2,
        ;
        assert(s * (s * b) + 2 * s + 2 * s == (s * s) * b + 4 * s) by (nonlinear_arith);
    } else {
        assert((s * s) * ends_before(s, n) + 4 * (s * n) == 0) by (nonlinear_arith)
            requires
                n == 0,
                ends_before(s, n) == 0,
        ;
    }
}

/// A chunk that is one solid block through and through shows, before faces
/// are merged, exactly the faces on its six sides: `6 * s * s` quads.
pub proof fn lemma_uniform_unmerged_count(blocks: Seq<Block>, s: int, m: Block)
    requires
        1 <= s,
        uniform(blocks, s, m),
        m.opaque(),
    ensures
        unmerged_quads(Pass::Opaque, blocks, s).len() == 6 * (s * s),
{
    lemma_uniform_layers(blocks, s, m, s);
    assert((s * s) * 2 + 4 * (s * s) == 6 * (s * s));
}

/// Whether the rows `(a, b)` of direction `face` lie on the side of the
/// chunk that the face looks out of.
pub open spec fn on_side(s: int, face: Face, a: int, b: int) -> bool {
    match face {
        Face::PosZ | Face::PosX => b == s - 1,
        Face::NegZ | Face::NegX => b == 0,
        Face::NegY => a == 0,
        Face::PosY => a == s - 1,
    }
}

/// In a chunk of one solid material every cell of a row shows its face
/// where the row lies on the side the face looks out of, and none does
/// elsewhere.
pub proof fn lemma_uniform_line(
    blocks: Seq<Block>,
    s: int,
    m: Block,
    face: Face,
    a: int,
    b: int,
    t: int,
)
    requires
        uniform(blocks, s, m),
        m.opaque(),
        0 <= a < s,
        0 <= b < s,
        0 <= t < s,
    ensures
        line(Pass::Opaque, blocks, s, face, a, b, t) == if on_side(s, face, a, b) {
            Some(m)
        } else {
            None
        },
{
    let c = row_cell(face, a, b, t);
    lemma_uniform_face(blocks, s, m, c.0, c.1, c.2, face);
}

/// In a chunk of one solid material a row gives one quad once it is
/// complete, where it lies on the side the face looks out of.
pub proof fn lemma_uniform_row(
    blocks: Seq<Block>,
    s: int,
    m: Block,
    face: Face,
    a: int,
    b: int,
    n: int,
)
    requires
        uniform(blocks, s, m),
        m.opaque(),
        0 <= a < s,
        0 <= b < s,
        0 <= n <= s,
    ensures
        row_quads(Pass::Opaque, blocks, s, face, a, b, n).len() == if n == s && on_side(
            s,
            face,
            a,
            b,
        ) {
            1int
        } else {
            0
        },
    decreases n,
{
    if n > 0 {
        lemma_uniform_row(blocks, s, m, face, a, b, n - 1);
        lemma_uniform_line(blocks, s, m, face, a, b, n - 1);
        if n < s {
            lemma_uniform_line(blocks, s, m, face, a, b, n);
        }
    }
}

/// How many of the first `n` rows of the layer `a` lie on the side that the
/// face looks out of.
pub open spec fn rows_on_side(s: int, face: Face, a: int, n: int) -> int {
    match face {
        Face::PosZ | Face::PosX => if n == s {
            1
        } else {
            0
        },
        Face::NegZ | Face::NegX => if n >= 1 {
            1
        } else {
            0
        },
        Face::NegY => if a == 0 {
            n
        } else {
            0
        },
        Face::PosY => if a == s - 1 {
            n
        } else {
            0
        },
    }
}

/// In a chunk of one solid material the first `n` rows of a layer give one
/// quad for each row on the side that the face looks out of.
pub proof fn lemma_uniform_band(blocks: Seq<Block>, s: int, m: Block, face: Face, a: int, n: int)
    requires
        uniform(blocks, s, m),
        m.opaque(),
        0 <= a < s,
        0 <= n <= s,
    ensures
        band_quads(Pass::Opaque, blocks, s, face, a, n).len() == rows_on_side(s, face, a, n),
    decreases n,
{
    if n > 0 {
        lemma_uniform_band(blocks, s, m, face, a, n - 1);
        lemma_uniform_row(blocks, s, m, face, a, n - 1, s);
    }
}

/// How many quads of one direction the lowest `n` layers of a chunk of one
/// solid material give.
pub open spec fn layers_on_side(s: int, face: Face, n: int) -> int {
    match face {
        Face::NegY => if n >= 1 {
            s
        } else {
            0
        },
        Face::PosY => if n == s {
            s
        } else {
            0
        },
        _ => n,
    }
}

/// In a chunk of one solid material the lowest `n` layers give one quad of
/// a direction for each row on the side that the face looks out of.
pub proof fn lemma_uniform_side(blocks: Seq<Block>, s: int, m: Block, face: Face, n: int)
    requires
        uniform(blocks, s, m),
        m.opaque(),
        0 <= n <= s,
    ensures
        face_quads(Pass::Opaque, blocks, s, face, n).len() == layers_on_side(s, face, n),
    decreases n,
{
    if n > 0 {
        lemma_uniform_side(blocks, s, m, face, n - 1);
        lemma_uniform_band(blocks, s, m, face, n - 1, s);
    }
}

/// A chunk that is one solid block through and through has, after merging,
/// one quad for each row of cells on each of its six sides: `6 * s` quads.
/// Where the edge is one cell these are the six faces of the chunk.
pub proof fn lemma_uniform_merged_count(blocks: Seq<Block>, s: int, m: Block)
    requires
        1 <= s,
        uniform(blocks, s, m),
        m.opaque(),
    ensures
        merged_quads(Pass::Opaque, blocks, s).len() == 6 * s,
        s == 1 ==> merged_quads(Pass::Opaque, blocks, s).len() == 6,
{
    let p = Pass::Opaque;
    lemma_uniform_side(blocks, s, m, Face::PosZ, s);
    lemma_uniform_side(blocks, s, m, Face::NegZ, s);
    lemma_uniform_side(blocks, s, m, Face::NegY, s);
    lemma_uniform_side(blocks, s, m, Face::PosY, s);
    lemma_uniform_side(blocks, s, m, Face::PosX, s);
    lemma_uniform_side(blocks, s, m, Face::NegX, s);
    assert(merged_upto(p, blocks, s, 0).len() == 0);
    assert(merged_upto(p, blocks, s, 1).len() == s);
    assert(merged_upto(p, blocks, s, 2).len() == 2 * s);
    assert(merged_upto(p, blocks, s, 3).len() == 3 * s);
    assert(merged_upto(p, blocks, s, 4).len() == 4 * s);
    assert(merged_upto(p, blocks, s, 5).len() == 5 * s);
}

/// In a chunk without a block of the pass no cell shows a face.
pub proof fn lemma_vacant_face(
    pass: Pass,
    blocks: Seq<Block>,
    s: int,
    i: int,
    j: int,
    k: int,
    face: Face,
)
    requires
        vacant(pass, blocks, s),
        in_chunk(s, i, j, k),
    ensures
        face_material(pass, blocks, s, i, j, k, face) is None,
{
    lemma_cell_index(s, i, j, k);
}

/// In a chunk without a block of the pass the rows give no quad.
pub proof fn lemma_vacant_row(
    pass: Pass,
    blocks: Seq<Block>,
    s: int,
    face: Face,
    a: int,
    b: int,
    n: int,
)
    requires
        vacant(pass, blocks, s),
        0 <= a < s,
        0 <= b < s,
        0 <= n <= s,
    ensures
        row_quads(pass, blocks, s, face, a, b, n).len() == 0,
    decreases n,
{
    if n > 0 {
        lemma_vacant_row(pass, blocks, s, face, a, b, n - 1);
        let c = row_cell(face, a, b, n - 1);
        lemma_vacant_face(pass, blocks, s, c.0, c.1, c.2, face);
    }
}

/// In a chunk without a block of the pass the layers give no quad.
pub proof fn lemma_vacant_band(pass: Pass, blocks: Seq<Block>, s: int, face: Face, a: int, n: int)
    requires
        vacant(pass, blocks, s),
        0 <= a < s,
        0 <= n <= s,
    ensures
        band_quads(pass, blocks, s, face, a, n).len() == 0,
    decreases n,
{
    if n > 0 {
        lemma_vacant_band(pass, blocks, s, face, a, n - 1);
        lemma_vacant_row(pass, blocks, s, face, a, n - 1, s);
    }
}

/// In a chunk without a block of the pass no direction gives a quad.
pub proof fn lemma_vacant_side(pass: Pass, blocks: Seq<Block>, s: int, face: Face, n: int)
    requires
        vacant(pass, blocks, s),
        0 <= n <= s,
    ensures
        face_quads(pass, blocks, s, face, n).len() == 0,
    decreases n,
{
    if n > 0 {
        lemma_vacant_side(pass, blocks, s, face, n - 1);
        lemma_vacant_band(pass, blocks, s, face, n - 1, s);
    }
}

/// A chunk without a block of the pass has no surface in that pass, merged
/// or not.
pub proof fn lemma_vacant_no_quads(pass: Pass, blocks: Seq<Block>, s: int)
    requires
        0 <= s,
        vacant(pass, blocks, s),
    ensures
        merged_quads(pass, blocks, s).len() == 0,
        unmerged_quads(pass, blocks, s).len() == 0,
{
    lemma_vacant_side(pass, blocks, s, Face::PosZ, s);
    lemma_vacant_side(pass, blocks, s, Face::NegZ, s);
    lemma_vacant_side(pass, blocks, s, Face::NegY, s);
    lemma_vacant_side(pass, blocks, s, Face::PosY, s);
    lemma_vacant_side(pass, blocks, s, Face::PosX, s);
    lemma_vacant_side(pass, blocks, s, Face::NegX, s);
    assert(merged_upto(pass, blocks, s, 0).len() == 0);
    assert(merged_upto(pass, blocks, s, 1).len() == 0);
    assert(merged_upto(pass, blocks, s, 2).len() == 0);
    assert(merged_upto(pass, blocks, s, 3).len() == 0);
    assert(merged_upto(pass, blocks, s, 4).len() == 0);
    assert(merged_upto(pass, blocks, s, 5).len() == 0);
    lemma_vacant_layers(pass, blocks, s, s);
}

/// In a chunk without a block of the pass the cells show no face.
pub proof fn lemma_vacant_cell(
    pass: Pass,
    blocks: Seq<Block>,
    s: int,
    i: int,
    j: int,
    k: int,
    n: int,
)
    requires
        vacant(pass, blocks, s),
        in_chunk(s, i, j, k),
        0 <= n <= 6,
    ensures
        cell_quads(pass, blocks, s, i, j, k, n).len() == 0,
    decreases n,
{
    if n > 0 {
        lemma_vacant_cell(pass, blocks, s, i, j, k, n - 1);
        lemma_vacant_face(pass, blocks, s, i, j, k, Face::of(n - 1));
    }
}

/// In a chunk without a block of the pass the rows of cells show no face.
pub proof fn lemma_vacant_strip(pass: Pass, blocks: Seq<Block>, s: int, j: int, k: int, n: int)
    requires
        vacant(pass, blocks, s),
        0 <= j < s,
        0 <= k < s,
        0 <= n <= s,
    ensures
        strip_quads(pass, blocks, s, j, k, n).len() == 0,
    decreases n,
{
    if n > 0 {
        lemma_vacant_strip(pass, blocks, s, j, k, n - 1);
        lemma_vacant_cell(pass, blocks, s, n - 1, j, k, 6);
    }
}

/// In a chunk without a block of the pass the layers of cells show no face.
pub proof fn lemma_vacant_layer(pass: Pass, blocks: Seq<Block>, s: int, j: int, n: int)
    requires
        vacant(pass, blocks, s),
        0 <= j < s,
        0 <= n <= s,
    ensures
        layer_quads(pass, blocks, s, j, n).len() == 0,
    decreases n,
{
    if n > 0 {
        lemma_vacant_layer(pass, blocks, s, j, n - 1);
        lemma_vacant_strip(pass, blocks, s, j, n - 1, s);
    }
}

/// In a chunk without a block of the pass the lowest `n` layers show no
/// face.
pub proof fn lemma_vacant_layers(pass: Pass, blocks: Seq<Block>, s: int, n: int)
    requires
        vacant(pass, blocks, s),
        0 <= n <= s,
    ensures
        unmerged_upto(pass, blocks, s, n).len() == 0,
    decreases n,
{
    if n > 0 {
        lemma_vacant_layers(pass, blocks, s, n - 1);
        lemma_vacant_layer(pass, blocks, s, n - 1, s);
    }
}

/// Every place of the block array is the place of a cell.
pub proof fn lemma_cell_of_index(s: int, n: int) -> (c: (int, int, int))
    requires
        0 < s,
        0 <= n < volume(s),
    ensures
        in_chunk(s, c.0, c.1, c.2),
        cell_index(s, c.0, c.1, c.2) == n,
{
    let r = n / s;
    let i = n % s;
    vstd::arithmetic::div_mod::lemma_fundamental_div_mod(n, s);
    vstd::arithmetic::div_mod::lemma_mod_bound(n, s);
    let j = r / s;
    let k = r % s;
    vstd::arithmetic::div_mod::lemma_fundamental_div_mod(r, s);
    vstd::arithmetic::div_mod::lemma_mod_bound(r, s);
    assert(0 <= r < s * s) by (nonlinear_arith)
        requires
            n == s * r + i,
            0 <= i < s,
            0 <= n < s * s * s,
            0 < s,
    ;
    assert(0 <= j < s) by (nonlinear_arith)
        requires
            r == s * j + k,
            0 <= k < s,
            0 <= r < s * s,
            0 < s,
    ;
    lemma_cell_index(s, i, j, k);
    assert((j * s + k) * s + i == n) by (nonlinear_arith)
        requires
            n == s * r + i,
            r == s * j + k,
    ;
    (i, j, k)
}

/// How many of the first `n` cells of a row show a face of direction
/// `face`.
pub open spec fn shown_count(
    pass: Pass,
    blocks: Seq<Block>,
    s: int,
    face: Face,
    a: int,
    b: int,
    n: int,
) -> int
    decreases n,
{
    if n <= 0 {
        0
    } else {
        shown_count(pass, blocks, s, face, a, b, n - 1) + if line(
            pass,
            blocks,
            s,
            face,
            a,
            b,
            n - 1,
        ) is Some {
            1int
        } else {
            0
        }
    }
}

/// How many cells the quads of a list span, all together.
pub open spec fn spanned(quads: Seq<Quad>) -> int
    decreases quads.len(),
{
    if quads.len() == 0 {
        0
    } else {
        spanned(quads.drop_last()) + quads.last().len
    }
}

/// The length of the run that is still open after the first `n` cells of a
/// row: the cells that show a face and wait for the end of their run.
pub open spec fn open_run(
    pass: Pass,
    blocks: Seq<Block>,
    s: int,
    face: Face,
    a: int,
    b: int,
    n: int,
) -> int {
    if n > 0 && line(pass, blocks, s, face, a, b, n - 1) is Some && !run_ends(
        pass,
        blocks,
        s,
        face,
        a,
        b,
        n - 1,
    ) {
        n - run_start(pass, blocks, s, face, a, b, n - 1)
    } else {
        0
    }
}

/// A run begins at or before the cell it is asked for, and not before the
/// row does.
pub proof fn lemma_run_start_bounds(
    pass: Pass,
    blocks: Seq<Block>,
    s: int,
    face: Face,
    a: int,
    b: int,
    t: int,
)
    requires
        0 <= t,
    ensures
        0 <= run_start(pass, blocks, s, face, a, b, t) <= t,
    decreases t,
{
    if t > 0 {
        lemma_run_start_bounds(pass, blocks, s, face, a, b, t - 1);
    }
}

/// A merged quad spans only cells that show the same material on the same
/// face: every cell of a run shows what the last cell of the run shows, and
/// belongs to the same run.
pub proof fn lemma_run_of_one_material(
    pass: Pass,
    blocks: Seq<Block>,
    s: int,
    face: Face,
    a: int,
    b: int,
    t: int,
    u: int,
)
    requires
        0 <= u <= t,
        run_start(pass, blocks, s, face, a, b, t) <= u,
    ensures
        line(pass, blocks, s, face, a, b, u) == line(pass, blocks, s, face, a, b, t),
        run_start(pass, blocks, s, face, a, b, u) == run_start(pass, blocks, s, face, a, b, t),
    decreases t,
{
    if u < t {
        lemma_run_start_bounds(pass, blocks, s, face, a, b, t - 1);
        lemma_run_of_one_material(pass, blocks, s, face, a, b, t - 1, u);
    }
}

/// Merging loses no face and adds none: the quads of the first `n` cells of
/// a row, together with the run that is still open, span exactly as many
/// cells as show a face.
pub proof fn lemma_row_spans_shown(
    pass: Pass,
    blocks: Seq<Block>,
    s: int,
    face: Face,
    a: int,
    b: int,
    n: int,
)
    requires
        0 <= n <= s,
    ensures
        spanned(row_quads(pass, blocks, s, face, a, b, n)) + open_run(
            pass,
            blocks,
            s,
            face,
            a,
            b,
            n,
        ) == shown_count(pass, blocks, s, face, a, b, n),
        n == s ==> spanned(row_quads(pass, blocks, s, face, a, b, n)) == shown_count(
            pass,
            blocks,
            s,
            face,
            a,
            b,
            n,
        ),
    decreases n,
{
    if n > 0 {
        lemma_row_spans_shown(pass, blocks, s, face, a, b, n - 1);
        let before = row_quads(pass, blocks, s, face, a, b, n - 1);
        if run_ends(pass, blocks, s, face, a, b, n - 1) {
            let q = run_quad(pass, blocks, s, face, a, b, n - 1);
            assert(before.push(q).drop_last() == before);
        }
    }
}

} // verus!
