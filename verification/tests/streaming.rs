use voxel_world::noise::basic_perlin::NoiseField;
use voxel_world::noise::perlin::ONE;
use voxel_world::voxel::block::{Block, EBlockType};
use voxel_world::voxel::chunk::{Chunk, ChunkCoord, ChunkState};
use voxel_world::voxel::mesh::VoxelPos;
use voxel_world::voxel::world::World;

fn at(x: i32, y: i32, z: i32) -> VoxelPos {
    VoxelPos { x, y, z }
}

fn coord(x: i32, y: i32) -> ChunkCoord {
    ChunkCoord { x, y }
}

fn active_coords(world: &World) -> Vec<ChunkCoord> {
    let mut active = Vec::new();
    for place in 0..world.chunk_count() {
        let chunk = world.chunk_at(place);
        if chunk.is_active() {
            active.push(chunk.chunk_coord());
        }
    }
    active.sort_by_key(|c| (c.y, c.x));
    active
}

fn all_coords(world: &World) -> Vec<ChunkCoord> {
    (0..world.chunk_count()).map(|place| world.chunk_at(place).chunk_coord()).collect()
}

fn window(x: std::ops::Range<i32>, y: std::ops::Range<i32>) -> Vec<ChunkCoord> {
    let mut window = Vec::new();
    for cy in y {
        for cx in x.clone() {
            window.push(coord(cx, cy));
        }
    }
    window
}

fn assert_no_duplicates(world: &World) {
    let mut coords = all_coords(world);
    let count = coords.len();
    coords.sort_by_key(|c| (c.y, c.x));
    coords.dedup();
    assert_eq!(coords.len(), count);
}

#[test]
fn a_new_world_has_no_chunks() {
    let world = World::new();
    assert_eq!(world.chunk_count(), 0);
    assert!(world.get_chunk(coord(0, 0)).is_none());
    assert!(!world.get_chunk_is_update(coord(0, 0)));
    assert!(!world.get_chunk_is_active(coord(0, 0)));
}

#[test]
fn chunk_of_a_world_position() {
    assert_eq!(World::get_chunkcoord_from_pos(at(0, 0, 0)), coord(0, 0));
    assert_eq!(World::get_chunkcoord_from_pos(at(9, 100, 9)), coord(0, 0));
    assert_eq!(World::get_chunkcoord_from_pos(at(10, -5, 25)), coord(1, 2));
    assert_eq!(World::get_chunkcoord_from_pos(at(-1, 0, -10)), coord(-1, -1));
    assert_eq!(World::get_chunkcoord_from_pos(at(-11, 0, -20)), coord(-2, -2));
    assert_eq!(World::get_chunkcoord_from_pos(at(299, 0, 300)), coord(29, 30));
    assert_eq!(
        World::get_chunkcoord_from_pos(at(i32::MAX, 0, i32::MIN)),
        coord(214748364, -214748365)
    );
}

#[test]
fn chunk_of_a_position_matches_the_columns_of_the_chunk() {
    for chunk in [coord(0, 0), coord(3, -2), coord(-7, 11)] {
        for x in 0..10 {
            for z in 0..10 {
                let column = Chunk::voxel_to_world_pos(x, z, chunk);
                let pos = at(column.x as i32, 5, column.y as i32);
                assert_eq!(World::get_chunkcoord_from_pos(pos), chunk);
            }
        }
    }
}

#[test]
fn bounds_of_the_world() {
    let world = World::new();
    assert!(world.is_chunk_in_world(&coord(0, 0)));
    assert!(world.is_chunk_in_world(&coord(29, 29)));
    assert!(world.is_chunk_in_world(&coord(0, 29)));
    assert!(!world.is_chunk_in_world(&coord(30, 0)));
    assert!(!world.is_chunk_in_world(&coord(0, 30)));
    assert!(!world.is_chunk_in_world(&coord(-1, 0)));
    assert!(!world.is_chunk_in_world(&coord(0, -1)));
    assert!(!world.is_chunk_in_world(&coord(i32::MIN, i32::MAX)));

    assert!(world.is_voxel_in_world(at(1, 1, 1)));
    assert!(world.is_voxel_in_world(at(298, 298, 298)));
    assert!(!world.is_voxel_in_world(at(0, 1, 1)));
    assert!(!world.is_voxel_in_world(at(1, 0, 1)));
    assert!(!world.is_voxel_in_world(at(1, 1, 0)));
    assert!(!world.is_voxel_in_world(at(299, 1, 1)));
    assert!(!world.is_voxel_in_world(at(1, 299, 1)));
    assert!(!world.is_voxel_in_world(at(1, 1, 299)));
    assert!(!world.is_voxel_in_world(at(-5, 1, 1)));
}

#[test]
fn blocks_of_a_world_without_terrain() {
    assert_eq!(World::get_voxel(at(3, 0, 3)), EBlockType::Stone.id());
    assert_eq!(World::get_voxel(at(3, -4, 3)), EBlockType::Stone.id());
    assert_eq!(World::get_voxel(at(3, 19, 3)), EBlockType::Sand.id());
    assert_eq!(World::get_voxel(at(3, 1, 3)), EBlockType::BedRock.id());
    assert_eq!(World::get_voxel(at(3, 18, 3)), EBlockType::BedRock.id());
    assert_eq!(World::get_voxel(at(3, 20, 3)), EBlockType::BedRock.id());
}

#[test]
fn streaming_activates_the_window_around_the_viewer() {
    let mut world = World::new();
    world.check_view_distance(at(155, 3, 150));
    // The viewer stands in chunk (15, 15): the window runs from 5 to 25.
    assert_eq!(world.chunk_count(), 441);
    assert_eq!(active_coords(&world), window(5..26, 5..26));
    assert_no_duplicates(&world);
    assert!(world.get_chunk_is_active(coord(5, 5)));
    assert!(world.get_chunk_is_active(coord(25, 25)));
    assert!(world.get_chunk_is_active(coord(15, 15)));
    assert!(world.get_chunk_is_active(coord(25, 15)));
    assert!(world.get_chunk_is_active(coord(15, 5)));
    assert!(!world.get_chunk_is_active(coord(26, 15)));
    assert!(!world.get_chunk_is_active(coord(4, 15)));
    assert!(!world.get_chunk_is_active(coord(15, 26)));
    assert!(world.get_chunk_is_update(coord(5, 25)));
    assert!(!world.get_chunk_is_update(coord(4, 25)));
    assert!(!world.get_chunk_is_update(coord(26, 15)));
    // Chunks are made row by row.
    assert_eq!(all_coords(&world), window(5..26, 5..26));
}

#[test]
fn streaming_twice_changes_nothing() {
    let mut world = World::new();
    world.check_view_distance(at(155, 3, 150));
    let coords = all_coords(&world);
    let active = active_coords(&world);
    let vertices: Vec<usize> =
        (0..world.chunk_count()).map(|place| world.chunk_at(place).vertices().len()).collect();
    world.check_view_distance(at(155, 3, 150));
    assert_eq!(all_coords(&world), coords);
    assert_eq!(active_coords(&world), active);
    let again: Vec<usize> =
        (0..world.chunk_count()).map(|place| world.chunk_at(place).vertices().len()).collect();
    assert_eq!(again, vertices);
    // Another position in the same chunk gives the same window.
    world.check_view_distance(at(150, -80, 159));
    assert_eq!(all_coords(&world), coords);
    assert_eq!(active_coords(&world), active);
}

#[test]
fn streaming_keeps_to_the_bounds_of_the_world() {
    let mut world = World::new();
    world.check_view_distance(at(0, 0, 0));
    assert_eq!(world.chunk_count(), 121);
    assert_eq!(active_coords(&world), window(0..11, 0..11));
    assert!(!world.get_chunk_is_update(coord(-1, 0)));
    assert!(!world.get_chunk_is_update(coord(0, -1)));

    let mut world = World::new();
    world.check_view_distance(at(295, 0, 15));
    // The viewer stands in chunk (29, 1): columns 19 to 29, rows 0 to 11.
    assert_eq!(active_coords(&world), window(19..30, 0..12));
    assert_eq!(world.chunk_count(), 132);
}

#[test]
fn streaming_far_outside_the_world_activates_nothing() {
    let mut world = World::new();
    world.check_view_distance(at(50, 0, 50));
    assert_eq!(world.chunk_count(), 256);
    for pos in [at(-1000, 0, 50), at(50, 0, 4000), at(i32::MIN, 0, i32::MIN), at(i32::MAX, 0, i32::MAX)] {
        world.check_view_distance(pos);
        assert_eq!(world.chunk_count(), 256);
        assert!(active_coords(&world).is_empty());
    }
    // Just outside: the window still reaches into the world.
    world.check_view_distance(at(-95, 0, 50));
    assert_eq!(active_coords(&world), window(0..1, 0..16));
    world.check_view_distance(at(-105, 0, 50));
    assert!(active_coords(&world).is_empty());
}

#[test]
fn moving_the_viewer_moves_the_window() {
    let mut world = World::new();
    world.check_view_distance(at(155, 0, 155));
    world.check_view_distance(at(5, 0, 5));
    // The chunks of the first window stay; 85 of the second are new.
    assert_eq!(world.chunk_count(), 526);
    assert_no_duplicates(&world);
    assert_eq!(active_coords(&world), window(0..11, 0..11));
    assert!(world.get_chunk_is_update(coord(12, 12)));
    assert!(!world.get_chunk_is_active(coord(12, 12)));
    assert!(world.get_chunk_is_active(coord(7, 7)));
    // The chunks made first keep their places.
    assert_eq!(all_coords(&world)[..441], window(5..26, 5..26)[..]);

    world.check_view_distance(at(155, 0, 155));
    assert_eq!(world.chunk_count(), 526);
    assert_eq!(active_coords(&world), window(5..26, 5..26));
}

#[test]
fn streamed_chunks_are_generated_and_meshed() {
    let mut world = World::new();
    world.check_view_distance(at(25, 0, 25));
    let noise = NoiseField::terrain();
    let registry = Block::new();
    for place in 0..world.chunk_count() {
        let chunk = world.chunk_at(place);
        assert_eq!(chunk.state(), ChunkState::MeshReady);
        assert!(chunk.is_updated());
        let count = chunk.vertices().len() as u32;
        assert_eq!(chunk.triangles().len() % 3, 0);
        assert_eq!(chunk.uvs().len(), chunk.vertices().len());
        assert!(chunk.triangles().iter().all(|i| *i < count));
    }
    let found = world.get_chunk(coord(3, 4)).unwrap();
    let made = Chunk::new(coord(3, 4), &noise, &registry);
    assert_eq!(found.chunk_coord(), coord(3, 4));
    assert_eq!(found.voxel_map(), made.voxel_map());
    assert_eq!(found.vertices(), made.vertices());
    assert_eq!(found.uvs(), made.uvs());
    assert_eq!(found.triangles(), made.triangles());
    assert!(found.is_active());
}

#[test]
fn generating_the_world_makes_the_start_region() {
    let mut world = World::new();
    world.generate_world();
    assert_eq!(world.chunk_count(), 900);
    assert_no_duplicates(&world);
    assert_eq!(all_coords(&world), window(-15..15, -15..15));
    assert!(active_coords(&world).is_empty());
    assert!(world.get_chunk_is_update(coord(-15, -15)));
    assert!(world.get_chunk_is_update(coord(14, 14)));
    assert!(!world.get_chunk_is_update(coord(15, 14)));
    assert!(!world.get_chunk_is_update(coord(-16, 0)));
    assert!(!world.get_chunk_is_active(coord(0, 0)));

    world.generate_world();
    assert_eq!(world.chunk_count(), 900);
}

#[test]
fn generating_the_world_leaves_streamed_chunks_alone() {
    let mut world = World::new();
    world.check_view_distance(at(5, 0, 5));
    world.generate_world();
    // 121 chunks were there, all of them in the start region.
    assert_eq!(world.chunk_count(), 900);
    assert_no_duplicates(&world);
    assert_eq!(active_coords(&world), window(0..11, 0..11));

    world.check_view_distance(at(5, 0, 5));
    assert_eq!(world.chunk_count(), 900);
    assert_eq!(active_coords(&world), window(0..11, 0..11));
}

#[test]
fn a_world_with_its_own_settings() {
    let noise = NoiseField::new(7, 3, 3000, ONE / 3).unwrap();
    let mut world = World::with_settings(noise, Block::new());
    world.check_view_distance(at(-95, 0, -95));
    assert_eq!(world.chunk_count(), 1);
    let chunk = world.chunk_at(0);
    let made = Chunk::new(coord(0, 0), &noise, &Block::new());
    assert_eq!(chunk.voxel_map(), made.voxel_map());
    assert_eq!(chunk.vertices(), made.vertices());
}

#[test]
fn the_window_reaches_as_far_on_either_side() {
    let mut world = World::new();
    world.check_view_distance(at(150, 0, 150));
    for (x, y, active) in [
        (25, 15, true),
        (5, 15, true),
        (15, 25, true),
        (15, 5, true),
        (25, 25, true),
        (5, 5, true),
        (26, 15, false),
        (4, 15, false),
        (15, 26, false),
        (15, 4, false),
    ] {
        assert_eq!(world.get_chunk_is_active(coord(x, y)), active);
        assert_eq!(world.get_chunk_is_update(coord(x, y)), active);
    }
    let chunk = world.get_chunk(coord(25, 15)).unwrap();
    let made = Chunk::new(coord(25, 15), &NoiseField::terrain(), &Block::new());
    assert!(chunk.is_active());
    assert_eq!(chunk.voxel_map(), made.voxel_map());
    assert_eq!(chunk.vertices(), made.vertices());
}
