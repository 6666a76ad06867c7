use voxel_world::noise::basic_perlin::NoiseField;
use voxel_world::noise::perlin::{Vector2, ONE};
use voxel_world::voxel::block::{Block, EBlockType};
use voxel_world::voxel::chunk::{Chunk, ChunkCoord, ChunkState};
use voxel_world::voxel::mesh::VoxelPos;

const CHUNK_WIDTH: i32 = 10;
const CHUNK_HEIGHT: i32 = 20;

fn at(x: i32, y: i32, z: i32) -> VoxelPos {
    VoxelPos { x, y, z }
}

#[test]
fn terrain_height_stretches_the_sample() {
    assert_eq!(Chunk::terrain_height(0), 9);
    assert_eq!(Chunk::terrain_height(ONE), 19);
    assert_eq!(Chunk::terrain_height(ONE - 1), 18);
    assert_eq!(Chunk::terrain_height(-ONE), 0);
    assert_eq!(Chunk::terrain_height(-ONE / 2), 4);
    assert_eq!(Chunk::terrain_height(ONE / 2), 14);
    assert_eq!(Chunk::terrain_height(3449), 9);
    assert_eq!(Chunk::terrain_height(3450), 10);
    assert_eq!(Chunk::terrain_height(-1), 9);
    assert_eq!(Chunk::terrain_height(-3450), 8);
    assert_eq!(Chunk::terrain_height(-58638), 0);
    assert_eq!(Chunk::terrain_height(-58637), 1);
}

#[test]
fn terrain_height_stays_in_the_chunk() {
    let mut sample = -ONE;
    while sample <= ONE {
        let height = Chunk::terrain_height(sample);
        assert!(0 <= height && height <= CHUNK_HEIGHT - 1);
        sample += 97;
    }
}

#[test]
fn layers_of_a_column() {
    assert_eq!(Chunk::block_in_layer(0, 5), EBlockType::BedRock.id());
    assert_eq!(Chunk::block_in_layer(1, 5), EBlockType::Stone.id());
    assert_eq!(Chunk::block_in_layer(4, 5), EBlockType::Stone.id());
    assert_eq!(Chunk::block_in_layer(5, 5), EBlockType::Grass.id());
    assert_eq!(Chunk::block_in_layer(6, 5), EBlockType::Air.id());
    assert_eq!(Chunk::block_in_layer(19, 5), EBlockType::Air.id());
    assert_eq!(Chunk::block_in_layer(0, 0), EBlockType::BedRock.id());
    assert_eq!(Chunk::block_in_layer(1, 0), EBlockType::Air.id());
    assert_eq!(Chunk::block_in_layer(-1, 5), EBlockType::BedRock.id());
}

#[test]
fn world_columns_of_local_columns() {
    assert_eq!(Chunk::voxel_to_world_pos(3, 4, ChunkCoord { x: 0, y: 0 }), Vector2 { x: 3, y: 4 });
    assert_eq!(
        Chunk::voxel_to_world_pos(3, 4, ChunkCoord { x: 2, y: -1 }),
        Vector2 { x: 23, y: -6 }
    );
    assert_eq!(
        Chunk::voxel_to_world_pos(9, 0, ChunkCoord { x: i32::MAX, y: i32::MIN }),
        Vector2 { x: 21474836479, y: -21474836480 }
    );
}

#[test]
fn the_origin_column_has_its_grass_in_the_middle() {
    let noise = NoiseField::terrain();
    let origin = ChunkCoord { x: 0, y: 0 };
    assert_eq!(noise.sample(0, 0), 0);
    assert_eq!(Chunk::terrain_height_at(0, 0, origin, &noise), 9);
    assert_eq!(Chunk::get_block_type(at(0, 9, 0), origin, &noise), EBlockType::Grass.id());
    assert_eq!(Chunk::get_block_type(at(0, 8, 0), origin, &noise), EBlockType::Stone.id());
    assert_eq!(Chunk::get_block_type(at(0, 10, 0), origin, &noise), EBlockType::Air.id());
    assert_eq!(Chunk::get_block_type(at(0, 18, 0), origin, &noise), EBlockType::Air.id());
}

#[test]
fn generated_chunk_follows_the_noise() {
    let noise = NoiseField::terrain();
    let registry = Block::new();
    let chunk = Chunk::new(ChunkCoord { x: 0, y: 0 }, &noise, &registry);
    assert_eq!(chunk.state(), ChunkState::MeshReady);
    assert!(chunk.is_updated());
    assert!(!chunk.is_active());
    for x in 0..CHUNK_WIDTH {
        for z in 0..CHUNK_WIDTH {
            assert_eq!(chunk.voxel(at(x, 0, z)), EBlockType::BedRock.id());
            let sample = noise.sample(x as i64 * ONE, z as i64 * ONE);
            let rescaled = (sample as f64 / ONE as f64 + 1.0) / 2.0 * 19.0;
            let height = rescaled.floor() as i32;
            assert_eq!(Chunk::terrain_height(sample), height);
            let surface: Vec<i32> = (0..CHUNK_HEIGHT)
                .filter(|y| chunk.voxel(at(x, *y, z)) == EBlockType::Grass.id())
                .collect();
            assert_eq!(surface, vec![height]);
            for y in 1..CHUNK_HEIGHT {
                let expected = if y < height {
                    EBlockType::Stone.id()
                } else if y == height {
                    EBlockType::Grass.id()
                } else {
                    EBlockType::Air.id()
                };
                assert_eq!(chunk.voxel(at(x, y, z)), expected);
            }
        }
    }
}

#[test]
fn heights_of_the_first_chunk() {
    let expected = [
        [9, 9, 9, 9, 9, 9, 9, 9, 9, 9],
        [8, 8, 8, 8, 9, 9, 9, 10, 10, 10],
        [7, 7, 7, 8, 8, 9, 10, 10, 11, 11],
        [7, 7, 7, 8, 8, 9, 10, 10, 11, 11],
        [6, 7, 7, 8, 8, 9, 10, 10, 11, 11],
        [7, 7, 8, 8, 9, 9, 9, 10, 10, 11],
        [7, 8, 8, 9, 9, 9, 9, 9, 10, 10],
        [8, 9, 9, 9, 9, 9, 9, 9, 9, 9],
        [9, 9, 10, 10, 10, 9, 8, 8, 8, 9],
        [9, 10, 10, 10, 10, 9, 8, 8, 8, 8],
    ];
    let noise = NoiseField::terrain();
    let origin = ChunkCoord { x: 0, y: 0 };
    for x in 0..CHUNK_WIDTH {
        for z in 0..CHUNK_WIDTH {
            let height = Chunk::terrain_height_at(x, z, origin, &noise);
            assert_eq!(height, expected[x as usize][z as usize]);
        }
    }
}

#[test]
fn heights_of_a_chunk_with_a_negative_coordinate() {
    let expected = [
        [9, 9, 9, 8, 7, 7, 6, 7, 7, 8],
        [8, 8, 8, 7, 7, 6, 6, 7, 7, 8],
        [7, 7, 7, 6, 6, 6, 6, 7, 8, 9],
        [7, 6, 6, 6, 6, 6, 7, 7, 8, 9],
        [6, 6, 6, 6, 6, 6, 7, 8, 9, 10],
        [7, 6, 6, 6, 6, 7, 8, 9, 10, 11],
        [7, 7, 6, 6, 6, 7, 8, 9, 10, 11],
        [8, 7, 7, 6, 7, 7, 8, 10, 11, 11],
        [9, 8, 7, 7, 7, 7, 8, 9, 10, 11],
        [9, 8, 7, 7, 7, 7, 8, 9, 9, 10],
    ];
    let noise = NoiseField::terrain();
    let registry = Block::new();
    let coord = ChunkCoord { x: 1, y: -1 };
    let chunk = Chunk::new(coord, &noise, &registry);
    for x in 0..CHUNK_WIDTH {
        for z in 0..CHUNK_WIDTH {
            let height = expected[x as usize][z as usize];
            assert_eq!(Chunk::terrain_height_at(x, z, coord, &noise), height);
            assert_eq!(chunk.voxel(at(x, height, z)), EBlockType::Grass.id());
            assert_eq!(chunk.voxel(at(x, height - 1, z)), EBlockType::Stone.id());
        }
    }
}

#[test]
fn block_types_follow_the_column_height() {
    let noise = NoiseField::terrain();
    let coord = ChunkCoord { x: 1, y: -1 };
    // The column (3, 4) of this chunk has height 6.
    assert_eq!(Chunk::get_block_type(at(3, 0, 4), coord, &noise), EBlockType::BedRock.id());
    assert_eq!(Chunk::get_block_type(at(3, 1, 4), coord, &noise), EBlockType::Stone.id());
    assert_eq!(Chunk::get_block_type(at(3, 5, 4), coord, &noise), EBlockType::Stone.id());
    assert_eq!(Chunk::get_block_type(at(3, 6, 4), coord, &noise), EBlockType::Grass.id());
    assert_eq!(Chunk::get_block_type(at(3, 7, 4), coord, &noise), EBlockType::Air.id());
    assert_eq!(Chunk::get_block_type(at(3, 19, 4), coord, &noise), EBlockType::Air.id());
}

#[test]
fn border_columns_agree_between_chunks() {
    let noise = NoiseField::terrain();
    let pairs = [
        (ChunkCoord { x: 0, y: 0 }, 10, 3, ChunkCoord { x: 1, y: 0 }, 0, 3),
        (ChunkCoord { x: 0, y: 0 }, -1, 3, ChunkCoord { x: -1, y: 0 }, 9, 3),
        (ChunkCoord { x: 0, y: 0 }, 4, 10, ChunkCoord { x: 0, y: 1 }, 4, 0),
        (ChunkCoord { x: 0, y: 0 }, 4, -1, ChunkCoord { x: 0, y: -1 }, 4, 9),
        (ChunkCoord { x: 5, y: -7 }, 10, 10, ChunkCoord { x: 6, y: -6 }, 0, 0),
        (ChunkCoord { x: 0, y: 0 }, 25, -13, ChunkCoord { x: 2, y: -2 }, 5, 7),
    ];
    for (first, fx, fz, second, sx, sz) in pairs {
        assert_eq!(
            Chunk::voxel_to_world_pos(fx, fz, first),
            Chunk::voxel_to_world_pos(sx, sz, second)
        );
        assert_eq!(
            Chunk::terrain_height_at(fx, fz, first, &noise),
            Chunk::terrain_height_at(sx, sz, second, &noise)
        );
        for y in 0..CHUNK_HEIGHT {
            assert_eq!(
                Chunk::get_block_type(at(fx, y, fz), first, &noise),
                Chunk::get_block_type(at(sx, y, sz), second, &noise)
            );
        }
    }
}

#[test]
fn populating_fills_an_empty_chunk() {
    let noise = NoiseField::terrain();
    let registry = Block::new();
    let mut chunk = Chunk::empty(ChunkCoord { x: 4, y: 2 });
    assert_eq!(chunk.state(), ChunkState::Empty);
    assert_eq!(chunk.chunk_coord(), ChunkCoord { x: 4, y: 2 });
    chunk.populate_voxel_map(&noise);
    assert_eq!(chunk.state(), ChunkState::VoxelsReady);
    assert_eq!(chunk.voxel_map().len(), 2000);
    assert!(chunk.vertices().is_empty());
    chunk.create_mesh_data(&registry);
    assert_eq!(chunk.state(), ChunkState::MeshReady);
    assert!(!chunk.vertices().is_empty());

    let whole = Chunk::new(ChunkCoord { x: 4, y: 2 }, &noise, &registry);
    assert_eq!(whole.voxel_map(), chunk.voxel_map());
    assert_eq!(whole.vertices(), chunk.vertices());
    assert_eq!(whole.uvs(), chunk.uvs());
    assert_eq!(whole.triangles(), chunk.triangles());
}

#[test]
fn generated_meshes_have_valid_indices() {
    let noise = NoiseField::terrain();
    let registry = Block::new();
    for (x, y) in [(0, 0), (1, -1), (-3, 7), (29, 29), (i32::MAX, i32::MIN)] {
        let chunk = Chunk::new(ChunkCoord { x, y }, &noise, &registry);
        let count = chunk.vertices().len() as u32;
        assert!(count > 0);
        assert_eq!(chunk.triangles().len() % 3, 0);
        assert_eq!(chunk.uvs().len(), chunk.vertices().len());
        assert_eq!(chunk.triangles().len(), chunk.vertices().len() / 4 * 6);
        assert!(chunk.triangles().iter().all(|i| *i < count));
    }
}

#[test]
fn another_seed_gives_another_terrain() {
    let registry = Block::new();
    let coord = ChunkCoord { x: 1, y: -1 };
    let first = Chunk::new(coord, &NoiseField::terrain(), &registry);
    let second = Chunk::new(coord, &NoiseField::new(133, 1, 6554, ONE / 2).unwrap(), &registry);
    assert_ne!(first.voxel_map(), second.voxel_map());
}

#[test]
fn every_column_has_one_layer_of_grass() {
    let noise = NoiseField::terrain();
    let registry = Block::new();
    let mut lowest = CHUNK_HEIGHT;
    let mut highest = 0;
    for (cx, cy) in [(0, 0), (1, -1), (-4, 9), (29, 29), (123, -456), (i32::MIN, i32::MAX)] {
        let coord = ChunkCoord { x: cx, y: cy };
        let chunk = Chunk::new(coord, &noise, &registry);
        for x in 0..CHUNK_WIDTH {
            for z in 0..CHUNK_WIDTH {
                let height = Chunk::terrain_height_at(x, z, coord, &noise);
                assert!(1 <= height && height <= CHUNK_HEIGHT - 2);
                let grass: Vec<i32> = (0..CHUNK_HEIGHT)
                    .filter(|y| chunk.voxel(at(x, *y, z)) == EBlockType::Grass.id())
                    .collect();
                assert_eq!(grass, vec![height]);
                assert_eq!(chunk.voxel(at(x, 0, z)), EBlockType::BedRock.id());
                lowest = lowest.min(height);
                highest = highest.max(height);
            }
        }
    }
    assert!(lowest < highest);
}
