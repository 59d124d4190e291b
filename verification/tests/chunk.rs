use rustvox::chunk::{
    Block, BlockRLE, Chunk, ChunkData, ChunkOpaqueMesh, ChunkTransparentMesh, Colour, MeshBuffers,
    MeshedChunk,
};
use rustvox::chunk_manager::ChunkCoordinates;
use rustvox::mesh::{Face, Pass, Vertex};
use rustvox::world_gen::{Column, GenExp};
use std::collections::BTreeMap;
use std::num::NonZeroU32;

const ALL_BLOCKS: [Block; 14] = [
    Block::Air,
    Block::Dirt,
    Block::Grass,
    Block::Stone,
    Block::Water,
    Block::Sand,
    Block::Lava,
    Block::Hellstone,
    Block::DeadGrass,
    Block::MoonRock,
    Block::Moss,
    Block::BlueFungus,
    Block::YellowFungus,
    Block::Wat,
];

const FACES: [Face; 6] =
    [Face::PosZ, Face::NegZ, Face::NegY, Face::PosY, Face::PosX, Face::NegX];

fn origin() -> ChunkCoordinates {
    ChunkCoordinates { x: 0, y: 0, z: 0 }
}

fn data_of(size: usize, at: ChunkCoordinates, f: impl Fn(usize, usize, usize) -> Block) -> ChunkData {
    let mut blocks = vec![Block::Air; size * size * size];
    for k in 0..size {
        for j in 0..size {
            for i in 0..size {
                blocks[k * size + j * size * size + i] = f(i, j, k);
            }
        }
    }
    ChunkData::from_blocks(at, size, blocks)
}

/// A material for each cell that looks random but is the same on every run.
fn motley(i: usize, j: usize, k: usize) -> Block {
    let n = rustvox::krand::khash((i + 31 * j + 977 * k) as u32) % 7;
    match n {
        0 | 1 => Block::Air,
        2 => Block::Water,
        3 => Block::Stone,
        4 => Block::Dirt,
        5 => Block::Stone,
        _ => Block::Grass,
    }
}

fn normal_of(face: Face) -> (i64, i64, i64) {
    match face {
        Face::PosZ => (0, 0, 1),
        Face::NegZ => (0, 0, -1),
        Face::NegY => (0, -1, 0),
        Face::PosY => (0, 1, 0),
        Face::PosX => (1, 0, 0),
        Face::NegX => (-1, 0, 0),
    }
}

/// The faces of single cells that a mesh covers, each with its colour:
/// every quad is cut into the unit squares it spans.
fn unit_faces(mesh: &MeshBuffers) -> BTreeMap<((i64, i64, i64), (i8, i8, i8)), (u8, u8, u8, u8)> {
    let mut out = BTreeMap::new();
    assert_eq!(mesh.vertices.len() % 4, 0);
    for quad in mesh.vertices.chunks(4) {
        let n = (quad[0].nx, quad[0].ny, quad[0].nz);
        let colour = (quad[0].r, quad[0].g, quad[0].b, quad[0].a);
        for v in quad {
            assert_eq!((v.nx, v.ny, v.nz), n);
            assert_eq!((v.r, v.g, v.b, v.a), colour);
        }
        let min = |f: fn(&Vertex) -> i64| quad.iter().map(f).min().unwrap();
        let max = |f: fn(&Vertex) -> i64| quad.iter().map(f).max().unwrap();
        let (x0, x1) = (min(|v| v.x), max(|v| v.x));
        let (y0, y1) = (min(|v| v.y), max(|v| v.y));
        let (z0, z1) = (min(|v| v.z), max(|v| v.z));
        // The quad is flat along its normal.
        let flat = [(x0, x1, n.0), (y0, y1, n.1), (z0, z1, n.2)];
        for (lo, hi, along) in flat {
            if along != 0 {
                assert_eq!(lo, hi);
            } else {
                assert!(hi > lo);
            }
        }
        for x in x0..x1.max(x0 + 1) {
            for y in y0..y1.max(y0 + 1) {
                for z in z0..z1.max(z0 + 1) {
                    // The cell the face belongs to lies behind the face.
                    let cell = (
                        if n.0 > 0 { x - 1 } else { x },
                        if n.1 > 0 { y - 1 } else { y },
                        if n.2 > 0 { z - 1 } else { z },
                    );
                    assert!(out.insert((cell, n), colour).is_none());
                }
            }
        }
    }
    out
}

/// The faces a pass shows, found cell by cell without any stream.
fn expected_faces(
    data: &ChunkData,
    takes: fn(Block) -> bool,
) -> BTreeMap<((i64, i64, i64), (i8, i8, i8)), (u8, u8, u8, u8)> {
    let s = data.size as i64;
    let at = |i: i64, j: i64, k: i64| data.blocks[(k * s + j * s * s + i) as usize];
    let inside = |v: i64| 0 <= v && v < s;
    let base = (s * data.cc.x as i64, s * data.cc.y as i64, s * data.cc.z as i64);
    let mut out = BTreeMap::new();
    for i in 0..s {
        for j in 0..s {
            for k in 0..s {
                let b = at(i, j, k);
                if !takes(b) {
                    continue;
                }
                for face in FACES {
                    let n = normal_of(face);
                    let (ni, nj, nk) = (i + n.0, j + n.1, k + n.2);
                    let hidden =
                        inside(ni) && inside(nj) && inside(nk) && takes(at(ni, nj, nk));
                    if !hidden {
                        let c = b.colour();
                        out.insert(
                            (
                                (base.0 + i, base.1 + j, base.2 + k),
                                (n.0 as i8, n.1 as i8, n.2 as i8),
                            ),
                            (c.r, c.g, c.b, c.a),
                        );
                    }
                }
            }
        }
    }
    out
}

fn solid(b: Block) -> bool {
    b != Block::Air && b != Block::Water
}

fn water(b: Block) -> bool {
    b == Block::Water
}

fn check_indices(mesh: &MeshBuffers) {
    assert_eq!(mesh.indices.len() / 6 * 4, mesh.vertices.len());
    assert_eq!(mesh.indices.len() % 6, 0);
    for (q, six) in mesh.indices.chunks(6).enumerate() {
        let b = 4 * q as u32;
        assert_eq!(six, &[b, b + 1, b + 2, b, b + 2, b + 3]);
    }
}

/// Twice the area of the triangle, along the face's normal: positive where
/// the triangle winds round the normal.
fn winding(a: &Vertex, b: &Vertex, c: &Vertex) -> i64 {
    let u = (b.x - a.x, b.y - a.y, b.z - a.z);
    let v = (c.x - a.x, c.y - a.y, c.z - a.z);
    let cross = (u.1 * v.2 - u.2 * v.1, u.2 * v.0 - u.0 * v.2, u.0 * v.1 - u.1 * v.0);
    cross.0 * a.nx as i64 + cross.1 * a.ny as i64 + cross.2 * a.nz as i64
}

#[test]
fn only_air_and_water_let_light_through() {
    for b in ALL_BLOCKS {
        assert_eq!(b.is_opaque(), b != Block::Air && b != Block::Water);
    }
}

#[test]
fn colours_in_tenths() {
    assert_eq!(Block::Dirt.colour(), Colour { r: 7, g: 5, b: 2, a: 10 });
    assert_eq!(Block::Grass.colour(), Colour { r: 0, g: 10, b: 0, a: 10 });
    assert_eq!(Block::Stone.colour(), Colour { r: 6, g: 6, b: 6, a: 10 });
    assert_eq!(Block::Water.colour(), Colour { r: 0, g: 0, b: 10, a: 5 });
    assert_eq!(Block::Sand.colour(), Colour { r: 10, g: 10, b: 0, a: 10 });
    assert_eq!(Block::Lava.colour(), Colour { r: 10, g: 0, b: 0, a: 10 });
    assert_eq!(Block::Hellstone.colour(), Colour { r: 6, g: 2, b: 2, a: 10 });
    assert_eq!(Block::DeadGrass.colour(), Colour { r: 5, g: 7, b: 0, a: 10 });
    assert_eq!(Block::MoonRock.colour(), Colour { r: 9, g: 9, b: 7, a: 10 });
    assert_eq!(Block::Moss.colour(), Colour { r: 0, g: 7, b: 0, a: 10 });
    assert_eq!(Block::BlueFungus.colour(), Colour { r: 0, g: 7, b: 10, a: 10 });
    assert_eq!(Block::YellowFungus.colour(), Colour { r: 5, g: 10, b: 1, a: 10 });
    assert_eq!(Block::Wat.colour(), Colour { r: 10, g: 0, b: 10, a: 10 });
}

#[test]
fn tenths_are_the_colours_of_the_palette() {
    // Dividing by ten gives the very single-precision numbers of the palette.
    assert_eq!(7.0f32 / 10.0, 0.7f32);
    assert_eq!(5.0f32 / 10.0, 0.5f32);
    assert_eq!(2.0f32 / 10.0, 0.2f32);
    assert_eq!(6.0f32 / 10.0, 0.6f32);
    assert_eq!(9.0f32 / 10.0, 0.9f32);
    assert_eq!(1.0f32 / 10.0, 0.1f32);
    assert_eq!(10.0f32 / 10.0, 1.0f32);
}

#[test]
fn faces_and_passes() {
    for (n, face) in FACES.iter().enumerate() {
        assert_eq!(Face::from_index(n), *face);
        let u = face.unit();
        assert_eq!((u.0 as i64, u.1 as i64, u.2 as i64), normal_of(*face));
        for v in 0..4 {
            let c = face.cube_corner(v);
            // Every corner lies on the side of the cube the face looks out of.
            let on_side = match face {
                Face::PosZ => c.2 == 1,
                Face::NegZ => c.2 == 0,
                Face::NegY => c.1 == 0,
                Face::PosY => c.1 == 1,
                Face::PosX => c.0 == 1,
                Face::NegX => c.0 == 0,
            };
            assert!(on_side);
        }
    }
    assert_eq!(Face::PosZ.cube_corner(0), (1, 0, 1));
    assert_eq!(Face::NegX.cube_corner(3), (0, 0, 1));
    for b in ALL_BLOCKS {
        assert_eq!(Pass::Opaque.accepts(b), b.is_opaque());
        assert_eq!(Pass::Transparent.accepts(b), b == Block::Water);
    }
}

#[test]
fn run_length_encoding_grows_the_last_run() {
    let mut rle = BlockRLE::new();
    assert_eq!(rle.len(), 0);
    rle.push(Block::Stone);
    assert_eq!(rle.len(), 1);
    assert_eq!(rle.run(0), (Block::Stone, 1));
    rle.push(Block::Stone);
    rle.push(Block::Stone);
    assert_eq!(rle.len(), 1);
    assert_eq!(rle.run(0), (Block::Stone, 3));
    rle.push(Block::Air);
    rle.push(Block::Stone);
    assert_eq!(rle.len(), 3);
    assert_eq!(rle.run(0), (Block::Stone, 3));
    assert_eq!(rle.run(1), (Block::Air, 1));
    assert_eq!(rle.run(2), (Block::Stone, 1));
}

#[test]
fn cells_lie_where_the_layout_says() {
    let data = data_of(3, origin(), motley);
    for i in 0..3 {
        for j in 0..3 {
            for k in 0..3 {
                assert_eq!(data.index(i, j, k), k * 3 + j * 9 + i);
                assert_eq!(data.block(i, j, k), motley(i, j, k));
            }
        }
    }
    assert_eq!(data.behind(0, 0, 0, Face::NegX), None);
    assert_eq!(data.behind(0, 0, 0, Face::NegY), None);
    assert_eq!(data.behind(0, 0, 0, Face::NegZ), None);
    assert_eq!(data.behind(0, 0, 0, Face::PosX), Some(1));
    assert_eq!(data.behind(0, 0, 0, Face::PosZ), Some(3));
    assert_eq!(data.behind(0, 0, 0, Face::PosY), Some(9));
    assert_eq!(data.behind(2, 2, 2, Face::PosX), None);
    assert_eq!(data.behind(2, 2, 2, Face::NegX), Some(25));
    assert_eq!(data.behind(1, 1, 1, Face::NegY), Some(4));
}

#[test]
fn first_cell_of_a_chunk() {
    let at = ChunkCoordinates { x: -2, y: 3, z: i32::MAX };
    let data = data_of(16, at, |_, _, _| Block::Air);
    assert_eq!(data.first_cell(), (-32, 48, 16 * (i32::MAX as i64)));
}

#[test]
fn a_solid_cube_shows_its_six_sides() {
    for s in [1usize, 2, 3, 4, 8] {
        let data = data_of(s, origin(), |_, _, _| Block::Stone);
        let unmerged = data.opaque_buffers();
        assert_eq!(unmerged.vertices.len(), 4 * 6 * s * s);
        assert_eq!(unmerged.indices.len(), 6 * 6 * s * s);
        let merged = data.opaque_buffers_opt();
        assert_eq!(merged.vertices.len(), 4 * 6 * s);
        assert_eq!(merged.indices.len(), 6 * 6 * s);
        let upright = data.new_opaque_mesh_rle().unwrap();
        assert_eq!(unit_faces(&upright), unit_faces(&unmerged));
        assert_eq!(unit_faces(&merged), unit_faces(&unmerged));
        assert_eq!(unit_faces(&merged).len(), 6 * s * s);
        assert!(data.new_transparent_mesh().is_none());
    }
}

#[test]
fn a_cube_of_one_cell_has_six_quads() {
    let data = data_of(1, ChunkCoordinates { x: 2, y: -1, z: 0 }, |_, _, _| Block::Sand);
    let mesh = data.new_opaque_mesh().unwrap();
    assert_eq!(mesh.vertices.len(), 24);
    assert_eq!(mesh.indices.len(), 36);
    check_indices(&mesh);
    // The first quad looks along +z and stands at the far side of the cell.
    let want = [(3, -1, 1), (2, -1, 1), (2, 0, 1), (3, 0, 1)];
    for (v, w) in mesh.vertices[0..4].iter().zip(want) {
        assert_eq!((v.x, v.y, v.z), w);
        assert_eq!((v.r, v.g, v.b, v.a), (10, 10, 0, 10));
        assert_eq!((v.nx, v.ny, v.nz), (0, 0, 1));
    }
    let normals: Vec<(i8, i8, i8)> =
        mesh.vertices.chunks(4).map(|q| (q[0].nx, q[0].ny, q[0].nz)).collect();
    assert_eq!(normals, vec![(0, 0, 1), (0, 0, -1), (0, -1, 0), (0, 1, 0), (1, 0, 0), (-1, 0, 0)]);
}

#[test]
fn an_empty_chunk_has_no_mesh() {
    let data = data_of(4, origin(), |_, _, _| Block::Air);
    assert!(data.new_opaque_mesh().is_none());
    assert!(data.new_opaque_mesh_rle().is_none());
    assert!(data.new_transparent_mesh().is_none());
    assert!(data.opaque_buffers().vertices.is_empty());
    assert!(data.opaque_buffers().indices.is_empty());
    assert!(data.opaque_buffers_opt().indices.is_empty());
    let meshed = MeshedChunk::new(data);
    assert!(meshed.opaque.is_none());
    assert!(meshed.transparent.is_none());
    let chunk = Chunk::new(meshed, None, None).ok().unwrap();
    assert!(chunk.opaque_mesh.is_none());
    assert!(chunk.transparent_mesh.is_none());
}

#[test]
fn a_chunk_of_water_has_no_solid_mesh() {
    let data = data_of(2, origin(), |_, _, _| Block::Water);
    assert!(data.new_opaque_mesh().is_none());
    let wet = data.new_transparent_mesh().unwrap();
    assert_eq!(wet.vertices.len(), 4 * 6 * 4);
    for v in &wet.vertices {
        assert_eq!((v.r, v.g, v.b, v.a), (0, 0, 10, 5));
    }
}

#[test]
fn water_shows_its_face_against_the_ground() {
    // Stone below, water above.
    let data = data_of(2, origin(), |_, j, _| if j == 0 { Block::Stone } else { Block::Water });
    let wet = data.new_transparent_mesh().unwrap();
    let faces = unit_faces(&wet);
    assert_eq!(faces, expected_faces(&data, water));
    // Every cell of water shows its underside, though stone lies below.
    assert!(faces.contains_key(&((0, 1, 0), (0, -1, 0))));
    assert_eq!(faces.len(), 4 + 4 + 8);
    // The stone shows its top, though water lies above.
    let dry = data.new_opaque_mesh().unwrap();
    assert!(unit_faces(&dry).contains_key(&((0, 0, 0), (0, 1, 0))));
    assert_eq!(unit_faces(&dry), expected_faces(&data, solid));
}

#[test]
fn a_row_of_one_material_is_one_quad() {
    // A floor of stone, one cell thick, in a chunk of four cells.
    let data = data_of(4, origin(), |_, j, _| if j == 0 { Block::Stone } else { Block::Air });
    let mesh = data.new_opaque_mesh().unwrap();
    check_indices(&mesh);
    // Top and bottom: four rows each. Sides: one row each.
    assert_eq!(mesh.vertices.len() / 4, 4 + 4 + 4);
    // The first quad is the side that looks along +z: the row at k = 3.
    let q: Vec<(i64, i64, i64)> = mesh.vertices[0..4].iter().map(|v| (v.x, v.y, v.z)).collect();
    assert_eq!(q, vec![(4, 0, 4), (0, 0, 4), (0, 1, 4), (4, 1, 4)]);
}

#[test]
fn runs_end_where_the_material_changes() {
    // One row: stone, stone, dirt, air.
    let row = [Block::Stone, Block::Stone, Block::Dirt, Block::Air];
    let data = data_of(4, origin(), |i, j, k| if j == 0 && k == 0 { row[i] } else { Block::Air });
    let mesh = data.new_opaque_mesh().unwrap();
    let tops: Vec<&[Vertex]> =
        mesh.vertices.chunks(4).filter(|q| (q[0].nx, q[0].ny, q[0].nz) == (0, 1, 0)).collect();
    assert_eq!(tops.len(), 2);
    let xs = |q: &[Vertex]| {
        (q.iter().map(|v| v.x).min().unwrap(), q.iter().map(|v| v.x).max().unwrap())
    };
    assert_eq!(xs(tops[0]), (0, 2));
    assert_eq!((tops[0][0].r, tops[0][0].g, tops[0][0].b), (6, 6, 6));
    assert_eq!(xs(tops[1]), (2, 3));
    assert_eq!((tops[1][0].r, tops[1][0].g, tops[1][0].b), (7, 5, 2));
    assert_eq!(unit_faces(&mesh), expected_faces(&data, solid));
}

#[test]
fn a_hidden_face_is_not_swallowed_by_a_run() {
    // A row of stone along x whose first cell is covered from above.
    let data = data_of(4, origin(), |i, j, k| {
        if k != 0 {
            Block::Air
        } else if j == 0 {
            Block::Stone
        } else if j == 1 && i == 0 {
            Block::Dirt
        } else {
            Block::Air
        }
    });
    let mesh = data.new_opaque_mesh().unwrap();
    let faces = unit_faces(&mesh);
    assert!(!faces.contains_key(&((0, 0, 0), (0, 1, 0))));
    assert!(faces.contains_key(&((1, 0, 0), (0, 1, 0))));
    assert_eq!(faces, expected_faces(&data, solid));
}

#[test]
fn merging_loses_no_face_and_adds_none() {
    for s in [1usize, 2, 3, 5, 8] {
        for at in [origin(), ChunkCoordinates { x: -3, y: 7, z: 1 }] {
            let data = data_of(s, at, motley);
            let want = expected_faces(&data, solid);
            let merged = data.opaque_buffers_opt();
            let unmerged = data.opaque_buffers();
            check_indices(&merged);
            check_indices(&unmerged);
            assert_eq!(unit_faces(&unmerged), want);
            assert_eq!(unit_faces(&merged), want);
            assert!(merged.vertices.len() <= unmerged.vertices.len());
            assert_eq!(unmerged.vertices.len(), 4 * want.len());
            match data.new_opaque_mesh_rle() {
                Some(upright) => {
                    check_indices(&upright);
                    assert_eq!(unit_faces(&upright), want);
                },
                None => assert!(want.is_empty()),
            }
            match data.new_transparent_mesh() {
                Some(wet) => {
                    check_indices(&wet);
                    assert_eq!(unit_faces(&wet), expected_faces(&data, water));
                },
                None => assert!(expected_faces(&data, water).is_empty()),
            }
        }
    }
}

#[test]
fn the_streams_are_the_same_on_every_run() {
    let data = data_of(5, origin(), motley);
    let a = data.opaque_buffers_opt();
    let b = data.opaque_buffers_opt();
    assert_eq!(a.vertices, b.vertices);
    assert_eq!(a.indices, b.indices);
}

#[test]
fn triangles_wind_round_the_normal() {
    let data = data_of(4, ChunkCoordinates { x: 1, y: -1, z: 2 }, motley);
    for mesh in [data.opaque_buffers_opt(), data.opaque_buffers(), data.new_opaque_mesh_rle().unwrap()] {
        let mut turn = None;
        for six in mesh.indices.chunks(6) {
            for t in six.chunks(3) {
                let (a, b, c) = (
                    &mesh.vertices[t[0] as usize],
                    &mesh.vertices[t[1] as usize],
                    &mesh.vertices[t[2] as usize],
                );
                let w = winding(a, b, c);
                assert_ne!(w, 0);
                assert_eq!(*turn.get_or_insert(w > 0), w > 0);
            }
        }
    }
}

#[test]
fn quads_run_in_the_order_of_the_directions() {
    let data = data_of(3, origin(), motley);
    let mesh = data.opaque_buffers_opt();
    let order: Vec<usize> = mesh
        .vertices
        .chunks(4)
        .map(|q| {
            FACES
                .iter()
                .position(|f| {
                    let u = f.unit();
                    (u.0, u.1, u.2) == (q[0].nx, q[0].ny, q[0].nz)
                })
                .unwrap()
        })
        .collect();
    let mut sorted = order.clone();
    sorted.sort();
    assert_eq!(order, sorted);
}

#[test]
fn faces_rle_lists_every_column_of_every_direction() {
    let s = 3usize;
    let data = data_of(s, origin(), motley);
    let columns = data.faces_rle();
    assert_eq!(columns.len(), 6 * s * s);
    for (f, face) in FACES.iter().enumerate() {
        for k in 0..s {
            for i in 0..s {
                let col = &columns[f * s * s + k * s + i];
                let mut seen: Vec<Block> = Vec::new();
                for n in 0..col.len() {
                    let (block, count) = col.run(n);
                    assert!(count >= 1);
                    if n > 0 {
                        assert_ne!(col.run(n - 1).0, block);
                    }
                    for _ in 0..count {
                        seen.push(block);
                    }
                }
                let want: Vec<Block> = (0..s)
                    .map(|j| data.visible_face(Pass::Opaque, i, j, k, *face).unwrap_or(Block::Air))
                    .collect();
                assert_eq!(seen, want);
            }
        }
    }
}

#[test]
fn upright_runs_stand_on_the_runs_below() {
    // A column: stone, stone, air, dirt, seen from the side that looks
    // along -x.
    let col = [Block::Stone, Block::Stone, Block::Air, Block::Dirt];
    let data = data_of(4, origin(), |i, j, k| if i == 0 && k == 0 { col[j] } else { Block::Air });
    let mesh = data.new_opaque_mesh_rle().unwrap();
    let sides: Vec<&[Vertex]> =
        mesh.vertices.chunks(4).filter(|q| (q[0].nx, q[0].ny, q[0].nz) == (-1, 0, 0)).collect();
    assert_eq!(sides.len(), 2);
    let ys = |q: &[Vertex]| {
        (q.iter().map(|v| v.y).min().unwrap(), q.iter().map(|v| v.y).max().unwrap())
    };
    assert_eq!(ys(sides[0]), (0, 2));
    assert_eq!(ys(sides[1]), (3, 4));
    assert_eq!(unit_faces(&mesh), expected_faces(&data, solid));
}

#[test]
fn flat_land_at_height_eight() {
    // Every column of a chunk of sixteen cells has its surface at height 8.
    let s = 16usize;
    let columns = vec![Column { height: 8 }; s * s];
    let gen = GenExp::new(0);
    let data = ChunkData::new(origin(), &gen, s, &columns);
    assert_eq!(data.size, 16);
    assert_eq!(data.cc, origin());
    assert_eq!(data.blocks.len(), 4096);
    for i in 0..s {
        for k in 0..s {
            for j in 0..s {
                let want = if j > 8 {
                    Block::Air
                } else if j == 8 {
                    Block::Grass
                } else if j >= 5 {
                    Block::Dirt
                } else {
                    Block::Stone
                };
                assert_eq!(data.block(i, j, k), want);
            }
        }
    }
    let mesh = data.new_opaque_mesh().expect("the ground shows");
    assert!(data.new_transparent_mesh().is_none());
    // Sixteen rows on top and below, nine rows of one material on each side.
    assert_eq!(mesh.vertices.len(), 4 * (16 + 16 + 4 * 9));
    assert_eq!(mesh.indices.len(), 6 * (16 + 16 + 4 * 9));
    assert_eq!(unit_faces(&mesh), expected_faces(&data, solid));
    assert_eq!(data.opaque_buffers().vertices.len(), 4 * (256 + 256 + 4 * 9 * 16));
    let upright = data.new_opaque_mesh_rle().unwrap();
    assert_eq!(upright.vertices.len(), 4 * (256 + 256 + 4 * 3 * 16));
}

#[test]
fn a_chunk_above_the_ground_has_no_solid_mesh() {
    let s = 8usize;
    let columns = vec![Column { height: 8 }; s * s];
    let gen = GenExp::new(0);
    // The chunk at height 2 begins at cell 16, above every surface.
    let data = ChunkData::new(ChunkCoordinates { x: 0, y: 2, z: 0 }, &gen, s, &columns);
    assert!(data.blocks.iter().all(|b| *b == Block::Air));
    let meshed = MeshedChunk::new(data);
    assert!(meshed.opaque.is_none());
    let chunk = Chunk::new(meshed, None, None).ok().unwrap();
    assert!(chunk.opaque_mesh.is_none());
    // Below the sea the sky is water: still nothing solid.
    let sunk = vec![Column { height: -40 }; s * s];
    let data = ChunkData::new(ChunkCoordinates { x: 0, y: -2, z: 0 }, &gen, s, &sunk);
    assert!(data.blocks.iter().all(|b| *b == Block::Water));
    assert!(data.new_opaque_mesh().is_none());
    assert!(data.new_transparent_mesh().is_some());
}

fn opaque_handle(n: u32, count: i32) -> ChunkOpaqueMesh {
    ChunkOpaqueMesh::new(
        glow::NativeVertexArray(NonZeroU32::new(n).unwrap()),
        glow::NativeBuffer(NonZeroU32::new(n + 1).unwrap()),
        glow::NativeBuffer(NonZeroU32::new(n + 2).unwrap()),
        count,
    )
}

fn transparent_handle(n: u32, count: i32) -> ChunkTransparentMesh {
    ChunkTransparentMesh::new(
        glow::NativeVertexArray(NonZeroU32::new(n).unwrap()),
        glow::NativeBuffer(NonZeroU32::new(n + 1).unwrap()),
        glow::NativeBuffer(NonZeroU32::new(n + 2).unwrap()),
        count,
    )
}

#[test]
fn a_chunk_takes_the_resources_of_its_streams() {
    let data = data_of(2, origin(), |_, j, _| if j == 0 { Block::Stone } else { Block::Water });
    let meshed = MeshedChunk::new(data);
    let solid_count = meshed.opaque.as_ref().unwrap().indices.len() as i32;
    let water_count = meshed.transparent.as_ref().unwrap().indices.len() as i32;
    let chunk = Chunk::new(
        meshed,
        Some(opaque_handle(1, solid_count)),
        Some(transparent_handle(4, water_count)),
    )
    .ok()
    .unwrap();
    let m = chunk.opaque_mesh.as_ref().unwrap();
    assert_eq!(m.num_triangles, solid_count);
    assert_eq!(m.vao, glow::NativeVertexArray(NonZeroU32::new(1).unwrap()));
    assert_eq!(m.vbo, glow::NativeBuffer(NonZeroU32::new(2).unwrap()));
    assert_eq!(m.ebo, glow::NativeBuffer(NonZeroU32::new(3).unwrap()));
    assert_eq!(chunk.transparent_mesh.as_ref().unwrap().num_triangles, water_count);
    assert_eq!(chunk.data.size, 2);
}

#[test]
fn a_chunk_is_not_built_without_the_resources_it_needs() {
    let stone = || MeshedChunk::new(data_of(2, origin(), |_, _, _| Block::Stone));
    let count = stone().opaque.unwrap().indices.len() as i32;
    assert_eq!(count, 6 * 6 * 2);
    // A surface with faces and no resources.
    let back = Chunk::new(stone(), None, None).err().unwrap();
    assert!(back.opaque_mesh.is_none());
    assert_eq!(back.meshed.data.size, 2);
    assert!(back.meshed.opaque.is_some());
    // Resources for a surface without faces.
    let back =
        Chunk::new(stone(), Some(opaque_handle(1, count)), Some(transparent_handle(4, 6)))
            .err()
            .unwrap();
    assert_eq!(back.opaque_mesh.unwrap().num_triangles, count);
    assert_eq!(back.transparent_mesh.unwrap().num_triangles, 6);
    // Resources of another length than the stream.
    assert!(Chunk::new(stone(), Some(opaque_handle(1, count - 6)), None).is_err());
    assert!(Chunk::new(stone(), Some(opaque_handle(1, -count)), None).is_err());
    assert!(Chunk::new(stone(), Some(opaque_handle(1, count)), None).is_ok());
}
