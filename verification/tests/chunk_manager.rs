use rustvox::chunk::{Block, Chunk, ChunkData, ChunkOpaqueMesh, ChunkTransparentMesh, MeshedChunk};
use rustvox::chunk_manager::{
    in_range, ChunkCoordinates, ChunkManager, DrawCall, FramePlan, Refusal, Sighting,
};
use rustvox::mesh::Pass;
use rustvox::settings::Settings;
use std::collections::HashSet;
use std::num::NonZeroU32;

fn cc(x: i32, y: i32, z: i32) -> ChunkCoordinates {
    ChunkCoordinates { x, y, z }
}

fn small(radius: i32) -> Settings {
    Settings {
        chunk_radius: radius,
        vertical_divisor: 3,
        chunks_per_frame: 1000,
        n_workers: 1,
        s: 2,
    }
}

fn opaque_handle(n: u32, count: i32) -> ChunkOpaqueMesh {
    ChunkOpaqueMesh::new(
        glow::NativeVertexArray(NonZeroU32::new(n).unwrap()),
        glow::NativeBuffer(NonZeroU32::new(n).unwrap()),
        glow::NativeBuffer(NonZeroU32::new(n).unwrap()),
        count,
    )
}

fn transparent_handle(n: u32, count: i32) -> ChunkTransparentMesh {
    ChunkTransparentMesh::new(
        glow::NativeVertexArray(NonZeroU32::new(n).unwrap()),
        glow::NativeBuffer(NonZeroU32::new(n).unwrap()),
        glow::NativeBuffer(NonZeroU32::new(n).unwrap()),
        count,
    )
}

/// A chunk of one material at `at`, with resources named after `name`.
fn chunk_of(at: ChunkCoordinates, block: Block, name: u32) -> Chunk {
    let meshed = MeshedChunk::new(ChunkData::from_blocks(at, 2, vec![block; 8]));
    let solid = meshed.opaque.as_ref().map(|m| opaque_handle(name, m.indices.len() as i32));
    let wet = meshed.transparent.as_ref().map(|m| transparent_handle(name, m.indices.len() as i32));
    Chunk::new(meshed, solid, wet).ok().unwrap()
}

fn name_of(chunk: &Chunk) -> u32 {
    chunk.opaque_mesh.as_ref().unwrap().vao.0.get()
}

/// Hands every job of a plan back as a finished chunk of stone.
fn finish(manager: &mut ChunkManager, plan: &FramePlan, first_name: u32) {
    for (n, job) in plan.jobs.iter().enumerate() {
        assert!(manager.reap(chunk_of(*job, Block::Stone, first_name + n as u32)).is_ok());
    }
}

fn check_one_place(manager: &ChunkManager, around: ChunkCoordinates, reach: i32) {
    for x in -reach..=reach {
        for y in -reach..=reach {
            for z in -reach..=reach {
                let at = cc(around.x + x, around.y + y, around.z + z);
                assert!(!(manager.chunk(at).is_some() && manager.is_loading(at)));
            }
        }
    }
}

#[test]
fn coordinates_are_filed_under_different_numbers() {
    assert_eq!(cc(i32::MIN, i32::MIN, i32::MIN).key(), 0);
    assert_eq!(cc(i32::MIN, i32::MIN, i32::MIN + 1).key(), 1);
    assert_eq!(cc(i32::MIN, i32::MIN + 1, i32::MIN).key(), 1 << 32);
    assert_eq!(cc(i32::MIN + 1, i32::MIN, i32::MIN).key(), 1 << 64);
    assert_eq!(cc(0, 0, 0).key(), (1u128 << 95) + (1u128 << 63) + (1u128 << 31));
    assert_eq!(cc(i32::MAX, i32::MAX, i32::MAX).key(), (1u128 << 96) - 1);
    let mut seen = HashSet::new();
    for x in -3..3 {
        for y in -3..3 {
            for z in -3..3 {
                assert!(seen.insert(cc(x, y, z).key()));
            }
        }
    }
}

#[test]
fn the_chunk_that_holds_a_cell() {
    let f = ChunkCoordinates::containing_world_pos;
    assert_eq!(f((0, 0, 0), 32), cc(0, 0, 0));
    assert_eq!(f((31, 32, 63), 32), cc(0, 1, 1));
    assert_eq!(f((-1, -32, -33), 32), cc(-1, -1, -2));
    assert_eq!(f((-3, 5, -64), 1), cc(-3, 5, -64));
    assert_eq!(f((i64::MAX, i64::MIN, 0), 1), cc(i32::MAX, i32::MIN, 0));
    assert_eq!(f((i64::MAX, i64::MIN, -1), 0x1_0000), cc(i32::MAX, i32::MIN, -1));
    assert_eq!(f((i32::MAX as i64 * 2 + 1, i32::MIN as i64 * 2, 0), 2), cc(i32::MAX, i32::MIN, 0));
    assert_eq!(f((i32::MAX as i64 * 2 + 2, i32::MIN as i64 * 2 - 1, 0), 2), cc(i32::MAX, i32::MIN, 0));
    assert_eq!(f((i32::MIN as i64 * 2 + 1, 0, 0), 2), cc(i32::MIN, 0, 0));
    assert_eq!(f((i32::MIN as i64 * 2 + 2, 0, 0), 2), cc(i32::MIN + 1, 0, 0));
}

#[test]
fn middle_and_corners_of_a_chunk() {
    let at = cc(1, -2, 0);
    assert_eq!(at.center(32), (48, -48, 16));
    assert_eq!(
        at.corners(32),
        [
            (32, -64, 0),
            (32, -64, 32),
            (32, -32, 0),
            (32, -32, 32),
            (64, -64, 0),
            (64, -64, 32),
            (64, -32, 0),
            (64, -32, 32),
        ]
    );
    assert_eq!(cc(i32::MIN, i32::MAX, 0).center(0x1_0000), (
        i32::MIN as i64 * 0x1_0000 + 0x8000,
        i32::MAX as i64 * 0x1_0000 + 0x8000,
        0x8000
    ));
}

#[test]
fn the_working_set_is_flatter_than_it_is_wide() {
    let s = Settings::new();
    let o = cc(0, 0, 0);
    assert!(in_range(&s, o, cc(20, 6, -20)));
    assert!(in_range(&s, o, cc(-20, -6, 20)));
    assert!(!in_range(&s, o, cc(21, 0, 0)));
    assert!(!in_range(&s, o, cc(0, 7, 0)));
    assert!(!in_range(&s, o, cc(0, -7, 0)));
    assert!(!in_range(&s, o, cc(0, 0, -21)));
    assert!(in_range(&s, cc(i32::MAX, i32::MIN, 0), cc(i32::MAX - 20, i32::MIN + 6, 0)));
    assert!(!in_range(&s, cc(i32::MAX, i32::MIN, 0), cc(i32::MIN, i32::MAX, 0)));
}

#[test]
fn a_new_manager_asks_for_the_whole_working_set() {
    let mut manager = ChunkManager::new(small(3));
    assert_eq!(manager.len(), 0);
    assert_eq!(manager.budget(), 1000);
    assert!(manager.may_reap());
    assert_eq!(manager.settings(), small(3));
    let plan = manager.treadmill(cc(10, -5, 2));
    assert!(plan.evicted.is_empty());
    // Seven by three by seven coordinates, by x, then y, then z.
    assert_eq!(plan.jobs.len(), 7 * 3 * 7);
    let mut want = Vec::new();
    for x in 7..=13 {
        for y in -6..=-4 {
            for z in -1..=5 {
                want.push(cc(x, y, z));
            }
        }
    }
    assert_eq!(plan.jobs, want);
    for job in &plan.jobs {
        assert!(manager.is_loading(*job));
        assert!(manager.chunk(*job).is_none());
    }
    assert!(!manager.is_loading(cc(14, -5, 2)));
    assert!(!manager.is_loading(cc(10, -3, 2)));
    // Nothing is asked for twice.
    let again = manager.treadmill(cc(10, -5, 2));
    assert!(again.jobs.is_empty());
    assert!(again.evicted.is_empty());
}

#[test]
fn moving_asks_only_for_what_is_new() {
    let mut manager = ChunkManager::new(small(1));
    let first = manager.treadmill(cc(0, 0, 0));
    assert_eq!(first.jobs.len(), 9);
    let second = manager.treadmill(cc(1, 0, 0));
    assert_eq!(second.jobs, vec![cc(2, 0, -1), cc(2, 0, 0), cc(2, 0, 1)]);
    // What is being generated stays so, though it has left the working set.
    assert!(manager.is_loading(cc(-1, 0, 0)));
    check_one_place(&manager, cc(0, 0, 0), 4);
}

#[test]
fn at_the_edge_of_the_world_the_working_set_is_cut_off() {
    let mut manager = ChunkManager::new(small(1));
    let plan = manager.treadmill(cc(i32::MAX, i32::MIN, i32::MIN));
    assert_eq!(
        plan.jobs,
        vec![
            cc(i32::MAX - 1, i32::MIN, i32::MIN),
            cc(i32::MAX - 1, i32::MIN, i32::MIN + 1),
            cc(i32::MAX, i32::MIN, i32::MIN),
            cc(i32::MAX, i32::MIN, i32::MIN + 1),
        ]
    );
}

#[test]
fn a_finished_chunk_becomes_live() {
    let mut manager = ChunkManager::new(small(1));
    let plan = manager.treadmill(cc(0, 0, 0));
    let at = plan.jobs[4];
    assert!(manager.is_loading(at));
    assert!(manager.reap(chunk_of(at, Block::Stone, 40)).is_ok());
    assert!(!manager.is_loading(at));
    assert_eq!(name_of(manager.chunk(at).unwrap()), 40);
    assert_eq!(manager.chunk(at).unwrap().data.cc, at);
    assert_eq!(manager.len(), 1);
    check_one_place(&manager, cc(0, 0, 0), 3);
    // The same coordinate a second time is handed back untouched.
    match manager.reap(chunk_of(at, Block::Stone, 41)) {
        Err(Refusal::Live(back)) => assert_eq!(name_of(&back), 41),
        _ => panic!("a second chunk was taken for one coordinate"),
    }
    assert_eq!(name_of(manager.chunk(at).unwrap()), 40);
    assert_eq!(manager.len(), 1);
    // A live chunk is not asked for again.
    let plan = manager.treadmill(cc(0, 0, 0));
    assert!(plan.jobs.is_empty());
}

#[test]
fn a_chunk_nobody_asked_for_is_taken_too() {
    let mut manager = ChunkManager::new(small(1));
    assert!(manager.reap(chunk_of(cc(50, 0, 0), Block::Stone, 1)).is_ok());
    assert!(manager.chunk(cc(50, 0, 0)).is_some());
    assert!(!manager.is_loading(cc(50, 0, 0)));
    // It lies outside the working set and leaves with the next frame.
    let plan = manager.treadmill(cc(0, 0, 0));
    assert_eq!(plan.evicted.len(), 1);
    assert_eq!(plan.evicted[0].data.cc, cc(50, 0, 0));
    assert!(manager.chunk(cc(50, 0, 0)).is_none());
}

#[test]
fn chunks_that_fall_behind_are_handed_out_once() {
    let radius = 2;
    let mut manager = ChunkManager::new(small(radius));
    let plan = manager.treadmill(cc(0, 0, 0));
    assert_eq!(plan.jobs.len(), 25);
    finish(&mut manager, &plan, 100);
    assert_eq!(manager.len(), 25);
    let first: Vec<ChunkCoordinates> = plan.jobs.clone();
    // The observer moves further than twice the radius: nothing stays.
    let far = cc(5, 0, 0);
    let plan = manager.treadmill(far);
    assert_eq!(plan.evicted.len(), 25);
    let mut names = HashSet::new();
    let mut places = HashSet::new();
    for chunk in &plan.evicted {
        assert!(names.insert(name_of(chunk)));
        assert!(places.insert((chunk.data.cc.x, chunk.data.cc.y, chunk.data.cc.z)));
        assert!(!in_range(&small(radius), far, chunk.data.cc));
    }
    for (n, at) in first.iter().enumerate() {
        assert!(manager.chunk(*at).is_none());
        assert!(names.contains(&(100 + n as u32)));
        assert!(places.contains(&(at.x, at.y, at.z)));
    }
    assert_eq!(manager.len(), 0);
    // A third frame has nothing left to hand out.
    let plan = manager.treadmill(far);
    assert!(plan.evicted.is_empty());
    check_one_place(&manager, cc(2, 0, 0), 6);
}

#[test]
fn chunks_that_stay_in_reach_stay_live() {
    let mut manager = ChunkManager::new(small(2));
    let plan = manager.treadmill(cc(0, 0, 0));
    finish(&mut manager, &plan, 1);
    let near = cc(1, 0, -1);
    let plan = manager.treadmill(near);
    // Those with x = -2 or z = 2 are out of reach now: nine of them.
    assert_eq!(plan.evicted.len(), 9);
    for chunk in &plan.evicted {
        assert!(chunk.data.cc.x == -2 || chunk.data.cc.z == 2);
    }
    assert_eq!(manager.len(), 16);
    for x in -1..=2 {
        for z in -2..=1 {
            assert!(manager.chunk(cc(x, 0, z)).is_some());
        }
    }
    // Those that came into reach are asked for: nine again.
    assert_eq!(plan.jobs.len(), 9);
    for job in &plan.jobs {
        assert!(job.x == 3 || job.z == -3);
        assert!(manager.is_loading(*job));
    }
    let mut seen: Vec<(i32, i32, i32)> =
        manager.coordinates().iter().map(|c| (c.x, c.y, c.z)).collect();
    seen.sort();
    seen.dedup();
    assert_eq!(seen.len(), 16);
    check_one_place(&manager, cc(0, 0, 0), 5);
}

#[test]
fn no_coordinate_is_in_two_places_whatever_happens() {
    let mut manager = ChunkManager::new(small(2));
    let mut name = 1;
    let mut pending: Vec<ChunkCoordinates> = Vec::new();
    for step in 0..40i32 {
        let at = cc((step * 7) % 11 - 5, (step % 3) - 1, (step * 5) % 13 - 6);
        let plan = manager.treadmill(at);
        pending.extend(plan.jobs.iter().copied());
        // Some of what was asked for comes back, in no particular order.
        let mut n = 0;
        while n < pending.len() {
            if rustvox::krand::khash(name + n as u32) % 3 == 0 {
                let job = pending.swap_remove(n);
                assert!(manager.reap(chunk_of(job, Block::Stone, name)).is_ok());
                name += 1;
            } else {
                n += 1;
            }
        }
        check_one_place(&manager, at, 5);
        for c in manager.coordinates() {
            assert!(!manager.is_loading(c));
            assert_eq!(manager.chunk(c).unwrap().data.cc, c);
        }
        assert_eq!(manager.coordinates().len(), manager.len());
    }
}

#[test]
fn far_solids_first_then_near_water() {
    let mut manager = ChunkManager::new(small(5));
    assert!(manager.reap(chunk_of(cc(0, 0, 0), Block::Stone, 1)).is_ok());
    assert!(manager.reap(chunk_of(cc(1, 0, 0), Block::Water, 2)).is_ok());
    assert!(manager.reap(chunk_of(cc(2, 0, 0), Block::Stone, 3)).is_ok());
    assert!(manager.reap(chunk_of(cc(3, 0, 0), Block::Water, 4)).is_ok());
    assert!(manager.reap(chunk_of(cc(4, 0, 0), Block::Air, 5)).is_ok());
    // The distances are the bit patterns of single-precision numbers, which
    // grow with the numbers as long as these are not negative.
    let d = |v: f32| v.to_bits();
    let seen = vec![
        Sighting { cc: cc(3, 0, 0), distance: d(9.0) },
        Sighting { cc: cc(0, 0, 0), distance: d(0.25) },
        Sighting { cc: cc(4, 0, 0), distance: d(16.0) },
        Sighting { cc: cc(2, 0, 0), distance: d(4.0) },
        Sighting { cc: cc(7, 0, 0), distance: d(1.5) },
        Sighting { cc: cc(1, 0, 0), distance: d(1.0) },
    ];
    let calls = manager.draw(&seen);
    assert_eq!(
        calls,
        vec![
            DrawCall { cc: cc(2, 0, 0), pass: Pass::Opaque },
            DrawCall { cc: cc(0, 0, 0), pass: Pass::Opaque },
            DrawCall { cc: cc(1, 0, 0), pass: Pass::Transparent },
            DrawCall { cc: cc(3, 0, 0), pass: Pass::Transparent },
        ]
    );
    assert!(manager.draw(&Vec::new()).is_empty());
}

#[test]
fn chunks_at_one_distance_are_drawn_in_the_order_of_their_coordinates() {
    let mut manager = ChunkManager::new(small(5));
    for (n, at) in [cc(1, 0, 0), cc(0, 1, 0), cc(0, 0, 1), cc(-1, 0, 0)].iter().enumerate() {
        assert!(manager.reap(chunk_of(*at, Block::Stone, 1 + n as u32)).is_ok());
    }
    let seen = vec![
        Sighting { cc: cc(1, 0, 0), distance: 7 },
        Sighting { cc: cc(0, 0, 1), distance: 7 },
        Sighting { cc: cc(-1, 0, 0), distance: 7 },
        Sighting { cc: cc(0, 1, 0), distance: 7 },
    ];
    let calls: Vec<ChunkCoordinates> = manager.draw(&seen).iter().map(|c| c.cc).collect();
    // Solid surfaces are drawn backwards.
    assert_eq!(calls, vec![cc(1, 0, 0), cc(0, 1, 0), cc(0, 0, 1), cc(-1, 0, 0)]);
}

#[test]
fn an_abandoned_chunk_is_asked_for_again() {
    let mut manager = ChunkManager::new(small(1));
    let plan = manager.treadmill(cc(0, 0, 0));
    assert_eq!(plan.jobs.len(), 9);
    let lost = cc(1, 0, -1);
    assert!(manager.is_loading(lost));
    manager.abandon(lost);
    assert!(!manager.is_loading(lost));
    assert!(manager.chunk(lost).is_none());
    // Giving up what nobody waits for changes nothing.
    manager.abandon(cc(40, 0, 0));
    let plan = manager.treadmill(cc(0, 0, 0));
    assert_eq!(plan.jobs, vec![lost]);
    assert!(manager.is_loading(lost));
    // A live chunk is not touched.
    assert!(manager.reap(chunk_of(lost, Block::Stone, 9)).is_ok());
    manager.abandon(lost);
    assert_eq!(name_of(manager.chunk(lost).unwrap()), 9);
    assert!(manager.treadmill(cc(0, 0, 0)).jobs.is_empty());
}

#[test]
fn a_frame_takes_no_more_chunks_than_it_may() {
    let settings = Settings { chunks_per_frame: 3, ..small(2) };
    let mut manager = ChunkManager::new(settings);
    let plan = manager.treadmill(cc(0, 0, 0));
    assert_eq!(plan.jobs.len(), 25);
    for n in 0..3 {
        assert!(manager.may_reap());
        assert!(manager.reap(chunk_of(plan.jobs[n], Block::Stone, 1 + n as u32)).is_ok());
    }
    assert!(!manager.may_reap());
    match manager.reap(chunk_of(plan.jobs[3], Block::Stone, 4)) {
        Err(Refusal::BudgetSpent(back)) => {
            assert_eq!(name_of(&back), 4);
            assert_eq!(back.data.cc, plan.jobs[3]);
        },
        _ => panic!("the frame took a fourth chunk"),
    }
    assert_eq!(manager.len(), 3);
    // What was refused is still being generated, and is not asked for anew.
    assert!(manager.is_loading(plan.jobs[3]));
    // A chunk that is live already is refused for that, budget or not.
    match manager.reap(chunk_of(plan.jobs[0], Block::Stone, 5)) {
        Err(Refusal::Live(back)) => assert_eq!(name_of(&back), 5),
        _ => panic!("a second chunk was taken for one coordinate"),
    }
    // The next frame may take three more.
    let next = manager.treadmill(cc(0, 0, 0));
    assert!(next.jobs.is_empty());
    assert!(manager.may_reap());
    assert!(manager.reap(chunk_of(plan.jobs[3], Block::Stone, 4)).is_ok());
    assert_eq!(manager.len(), 4);
}

#[test]
fn a_frame_that_may_take_nothing_takes_nothing() {
    let settings = Settings { chunks_per_frame: 0, ..small(1) };
    let mut manager = ChunkManager::new(settings);
    let plan = manager.treadmill(cc(0, 0, 0));
    assert!(!manager.may_reap());
    assert!(manager.reap(chunk_of(plan.jobs[0], Block::Stone, 1)).is_err());
    assert_eq!(manager.len(), 0);
}
