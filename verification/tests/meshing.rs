use voxel_world::voxel::block::{Block, BlockType, EBlockType};
use voxel_world::voxel::chunk::{Chunk, ChunkCoord, ChunkState};
use voxel_world::voxel::mesh::{MeshBuffers, TexCoord, Vertex, VoxelData, VoxelPos};

const WIDTH: i32 = 10;
const HEIGHT: i32 = 20;

fn index(x: i32, y: i32, z: i32) -> usize {
    Chunk::index_of(x, y, z)
}

#[test]
fn cells_are_stored_by_x_then_layer_then_z() {
    assert_eq!(Chunk::index_of(0, 0, 0), 0);
    assert_eq!(Chunk::index_of(0, 0, 9), 9);
    assert_eq!(Chunk::index_of(0, 1, 0), 10);
    assert_eq!(Chunk::index_of(1, 0, 0), 200);
    assert_eq!(Chunk::index_of(9, 19, 9), 1999);
    for x in 0..WIDTH {
        for y in 0..HEIGHT {
            for z in 0..WIDTH {
                assert_eq!(Chunk::index_of(x, y, z), ((x * HEIGHT + y) * WIDTH + z) as usize);
            }
        }
    }
}

fn filled_with(id: i32) -> Vec<i32> {
    vec![id; 2000]
}

fn meshed(coord: ChunkCoord, voxels: Vec<i32>) -> Chunk {
    let mut chunk = Chunk::from_voxels(coord, voxels).unwrap();
    chunk.create_mesh_data(&Block::new());
    chunk
}

fn origin() -> ChunkCoord {
    ChunkCoord { x: 0, y: 0 }
}

fn vertex(x: i64, y: i64, z: i64) -> Vertex {
    Vertex { x, y, z }
}

fn uv(u: i32, v: i32) -> TexCoord {
    TexCoord { u, v }
}

fn assert_indices_valid(chunk: &Chunk) {
    let count = chunk.vertices().len() as u32;
    assert_eq!(chunk.triangles().len() % 3, 0);
    assert_eq!(chunk.uvs().len(), chunk.vertices().len());
    assert_eq!(chunk.vertices().len() % 4, 0);
    assert_eq!(chunk.triangles().len(), chunk.vertices().len() / 4 * 6);
    for i in chunk.triangles() {
        assert!(*i < count);
    }
}

#[test]
fn dimensions_of_the_world() {
    assert_eq!(VoxelData::CHUNK_WIDTH, 10);
    assert_eq!(VoxelData::CHUNK_HEIGHT, 20);
    assert_eq!(VoxelData::CHUNK_VOLUME, 2000);
    assert_eq!(VoxelData::TEXTURE_ATLAS_SIZE, 4);
    assert_eq!(VoxelData::TEXTURE_UNITS, 1000);
    assert_eq!(VoxelData::NORMALIZE_BLOCK_TEXTURE_SIZE, 250);
    assert_eq!(VoxelData::TEXTURE_INSET, 5);
    assert_eq!(VoxelData::WORLD_SIZE, 30);
    assert_eq!(VoxelData::VIEW_DISTANCE_IN_CHUNKS, 10);
    assert_eq!(VoxelData::MESH_BASE_HEIGHT, -10);
}

#[test]
fn cube_corners() {
    let expected = [
        (0, 0, 0),
        (1, 0, 0),
        (1, 1, 0),
        (0, 1, 0),
        (0, 0, 1),
        (1, 0, 1),
        (1, 1, 1),
        (0, 1, 1),
    ];
    for (i, (x, y, z)) in expected.iter().enumerate() {
        assert_eq!(VoxelData::voxel_vert(i), VoxelPos { x: *x, y: *y, z: *z });
    }
}

#[test]
fn face_corner_tables() {
    let expected = [[0, 3, 1, 2], [5, 6, 4, 7], [3, 7, 2, 6], [1, 5, 0, 4], [4, 7, 0, 3], [1, 2, 5, 6]];
    for face in 0..6 {
        for corner in 0..4 {
            assert_eq!(VoxelData::voxel_tri(face, corner), expected[face][corner]);
        }
    }
}

#[test]
fn face_neighbour_steps() {
    let expected = [(0, 0, -1), (0, 0, 1), (0, 1, 0), (0, -1, 0), (-1, 0, 0), (1, 0, 0)];
    for (face, (x, y, z)) in expected.iter().enumerate() {
        assert_eq!(VoxelData::face_check(face), VoxelPos { x: *x, y: *y, z: *z });
    }
}

#[test]
fn faces_wind_outward() {
    for face in 0..6 {
        let corner = |k: usize| VoxelData::voxel_vert(VoxelData::voxel_tri(face, k));
        let normal = |a: VoxelPos, b: VoxelPos, c: VoxelPos| {
            let (ux, uy, uz) = (b.x - a.x, b.y - a.y, b.z - a.z);
            let (vx, vy, vz) = (c.x - a.x, c.y - a.y, c.z - a.z);
            VoxelPos { x: uy * vz - uz * vy, y: uz * vx - ux * vz, z: ux * vy - uy * vx }
        };
        let step = VoxelData::face_check(face);
        assert_eq!(normal(corner(0), corner(1), corner(2)), step);
        assert_eq!(normal(corner(2), corner(1), corner(3)), step);
    }
}

#[test]
fn corner_places_in_a_tile() {
    assert_eq!(VoxelData::voxel_uv(0), uv(0, 1));
    assert_eq!(VoxelData::voxel_uv(1), uv(0, 0));
    assert_eq!(VoxelData::voxel_uv(2), uv(1, 1));
    assert_eq!(VoxelData::voxel_uv(3), uv(1, 0));
}

#[test]
fn texture_coordinates_of_a_tile() {
    let mut mesh = MeshBuffers::new();
    mesh.add_texture(14);
    assert_eq!(mesh.uvs, vec![uv(505, 245), uv(505, 5), uv(745, 245), uv(745, 5)]);
    mesh.add_texture(11);
    assert_eq!(mesh.uvs.len(), 8);
    assert_eq!(mesh.uvs[4..], [uv(755, 495), uv(755, 255), uv(995, 495), uv(995, 255)]);
    mesh.add_texture(0);
    assert_eq!(mesh.uvs[8..], [uv(5, 995), uv(5, 755), uv(245, 995), uv(245, 755)]);
    mesh.add_texture(5);
    assert_eq!(mesh.uvs[12..], [uv(255, 745), uv(255, 505), uv(495, 745), uv(495, 505)]);
    assert!(mesh.vertices.is_empty());
    assert!(mesh.triangles.is_empty());
}

#[test]
fn texture_index_outside_the_atlas_is_moved_to_the_nearest_tile() {
    let mut mesh = MeshBuffers::new();
    mesh.add_texture(-3);
    mesh.add_texture(0);
    assert_eq!(mesh.uvs[..4], mesh.uvs[4..]);

    let mut mesh = MeshBuffers::new();
    mesh.add_texture(16);
    mesh.add_texture(99);
    mesh.add_texture(i32::MAX);
    mesh.add_texture(15);
    let last = [uv(755, 245), uv(755, 5), uv(995, 245), uv(995, 5)];
    assert_eq!(mesh.uvs[..4], last);
    assert_eq!(mesh.uvs[4..8], last);
    assert_eq!(mesh.uvs[8..12], last);
    assert_eq!(mesh.uvs[12..], last);
}

#[test]
fn every_tile_keeps_inside_the_atlas() {
    for tile in 0..16 {
        let mut mesh = MeshBuffers::new();
        mesh.add_texture(tile);
        let column = tile % 4;
        let row = tile / 4;
        for at in &mesh.uvs {
            assert!(column * 250 < at.u && at.u < (column + 1) * 250);
            assert!(1000 - (row + 1) * 250 < at.v && at.v < 1000 - row * 250);
        }
    }
}

#[test]
fn grid_bounds() {
    assert!(Chunk::isin_voxel_in_chunk(0, 0, 0));
    assert!(Chunk::isin_voxel_in_chunk(9, 19, 9));
    assert!(!Chunk::isin_voxel_in_chunk(10, 0, 0));
    assert!(!Chunk::isin_voxel_in_chunk(0, 20, 0));
    assert!(!Chunk::isin_voxel_in_chunk(0, 0, 10));
    assert!(!Chunk::isin_voxel_in_chunk(-1, 0, 0));
    assert!(!Chunk::isin_voxel_in_chunk(0, -1, 0));
    assert!(!Chunk::isin_voxel_in_chunk(0, 0, -1));
    assert!(!Chunk::isin_voxel_in_chunk(i32::MAX, i32::MIN, 0));
}

#[test]
fn a_grid_must_hold_every_cell() {
    assert!(Chunk::from_voxels(origin(), vec![]).is_none());
    assert!(Chunk::from_voxels(origin(), vec![0; 1999]).is_none());
    assert!(Chunk::from_voxels(origin(), vec![0; 2001]).is_none());
    let chunk = Chunk::from_voxels(ChunkCoord { x: 3, y: -4 }, vec![0; 2000]).unwrap();
    assert_eq!(chunk.chunk_coord(), ChunkCoord { x: 3, y: -4 });
    assert_eq!(chunk.state(), ChunkState::VoxelsReady);
    assert!(chunk.is_updated());
    assert!(!chunk.is_active());
    assert!(chunk.vertices().is_empty());
}

#[test]
fn a_chunk_moves_from_empty_to_meshed() {
    let chunk = Chunk::default();
    assert_eq!(chunk.chunk_coord(), origin());
    assert_eq!(chunk.state(), ChunkState::Empty);
    assert!(!chunk.is_updated());
    assert!(!chunk.is_active());
    assert!(chunk.voxel_map().is_empty());
    assert!(chunk.vertices().is_empty() && chunk.uvs().is_empty() && chunk.triangles().is_empty());
    assert!(!chunk.check_voxel(VoxelPos { x: 0, y: 0, z: 0 }, &Block::new()));
    assert_eq!(chunk.voxel(VoxelPos { x: 0, y: 0, z: 0 }), 0);

    let mut chunk = Chunk::from_voxels(origin(), filled_with(EBlockType::Stone.id())).unwrap();
    assert_eq!(chunk.state(), ChunkState::VoxelsReady);
    chunk.create_mesh_data(&Block::new());
    assert_eq!(chunk.state(), ChunkState::MeshReady);
    assert!(chunk.is_updated());
    assert_eq!(chunk.voxel_map(), &filled_with(EBlockType::Stone.id()));
}

#[test]
fn showing_a_chunk_changes_nothing_else() {
    let mut chunk = meshed(origin(), filled_with(EBlockType::Stone.id()));
    let vertices = chunk.vertices().clone();
    chunk.set_active(true);
    assert!(chunk.is_active());
    assert_eq!(chunk.state(), ChunkState::MeshReady);
    assert_eq!(chunk.vertices(), &vertices);
    chunk.set_active(false);
    assert!(!chunk.is_active());
    assert_eq!(chunk.vertices(), &vertices);
}

#[test]
fn cells_outside_the_grid_are_open() {
    let registry = Block::new();
    let chunk = meshed(origin(), filled_with(EBlockType::Stone.id()));
    assert!(chunk.check_voxel(VoxelPos { x: 0, y: 0, z: 0 }, &registry));
    assert!(chunk.check_voxel(VoxelPos { x: 9, y: 19, z: 9 }, &registry));
    assert!(!chunk.check_voxel(VoxelPos { x: -1, y: 0, z: 0 }, &registry));
    assert!(!chunk.check_voxel(VoxelPos { x: 10, y: 0, z: 0 }, &registry));
    assert!(!chunk.check_voxel(VoxelPos { x: 0, y: 20, z: 0 }, &registry));
    assert!(!chunk.check_voxel(VoxelPos { x: 0, y: -1, z: 0 }, &registry));
    assert!(!chunk.check_voxel(VoxelPos { x: 0, y: 0, z: 10 }, &registry));
    assert_eq!(chunk.voxel(VoxelPos { x: 10, y: 0, z: 0 }), 0);
    assert_eq!(chunk.voxel(VoxelPos { x: 9, y: 0, z: 0 }), EBlockType::Stone.id());
}

#[test]
fn unknown_blocks_are_open() {
    let registry = Block::new();
    let mut voxels = filled_with(0);
    voxels[index(1, 1, 1)] = 77;
    voxels[index(2, 2, 2)] = -5;
    let chunk = meshed(origin(), voxels);
    assert!(!chunk.check_voxel(VoxelPos { x: 1, y: 1, z: 1 }, &registry));
    assert!(!chunk.check_voxel(VoxelPos { x: 2, y: 2, z: 2 }, &registry));
    assert_eq!(chunk.voxel(VoxelPos { x: 1, y: 1, z: 1 }), 77);
    assert!(chunk.vertices().is_empty());
}

#[test]
fn an_empty_grid_has_no_faces() {
    let chunk = meshed(origin(), filled_with(EBlockType::Air.id()));
    assert!(chunk.vertices().is_empty());
    assert!(chunk.uvs().is_empty());
    assert!(chunk.triangles().is_empty());
    assert_eq!(chunk.mesh().face_count(), 0);
}

#[test]
fn a_lone_voxel_shows_six_faces() {
    let mut voxels = filled_with(0);
    voxels[index(1, 2, 3)] = EBlockType::Grass.id();
    let chunk = meshed(origin(), voxels);
    assert_eq!(chunk.vertices().len(), 24);
    assert_eq!(chunk.uvs().len(), 24);
    assert_eq!(chunk.triangles().len(), 36);
    assert_eq!(chunk.triangles().len() / 3, 12);
    assert_eq!(chunk.mesh().face_count(), 6);
    assert_indices_valid(&chunk);

    let expected = vec![
        // back
        vertex(1, -8, 3),
        vertex(1, -7, 3),
        vertex(2, -8, 3),
        vertex(2, -7, 3),
        // front
        vertex(2, -8, 4),
        vertex(2, -7, 4),
        vertex(1, -8, 4),
        vertex(1, -7, 4),
        // top
        vertex(1, -7, 3),
        vertex(1, -7, 4),
        vertex(2, -7, 3),
        vertex(2, -7, 4),
        // bottom
        vertex(2, -8, 3),
        vertex(2, -8, 4),
        vertex(1, -8, 3),
        vertex(1, -8, 4),
        // left
        vertex(1, -8, 4),
        vertex(1, -7, 4),
        vertex(1, -8, 3),
        vertex(1, -7, 3),
        // right
        vertex(2, -8, 3),
        vertex(2, -7, 3),
        vertex(2, -8, 4),
        vertex(2, -7, 4),
    ];
    assert_eq!(chunk.vertices(), &expected);

    let mut indices = Vec::new();
    for face in 0..6u32 {
        let first = 4 * face;
        indices.extend([first, first + 1, first + 2, first + 2, first + 1, first + 3]);
    }
    assert_eq!(chunk.triangles(), &indices);

    let side = [uv(505, 245), uv(505, 5), uv(745, 245), uv(745, 5)];
    let top = [uv(755, 495), uv(755, 255), uv(995, 495), uv(995, 255)];
    let bottom = [uv(255, 245), uv(255, 5), uv(495, 245), uv(495, 5)];
    assert_eq!(chunk.uvs()[0..4], side);
    assert_eq!(chunk.uvs()[4..8], side);
    assert_eq!(chunk.uvs()[8..12], top);
    assert_eq!(chunk.uvs()[12..16], bottom);
    assert_eq!(chunk.uvs()[16..20], side);
    assert_eq!(chunk.uvs()[20..24], side);
}

#[test]
fn a_lone_voxel_in_a_corner_shows_six_faces() {
    for (x, y, z) in [(0, 0, 0), (9, 19, 9), (0, 19, 0), (9, 0, 9), (5, 10, 5)] {
        let mut voxels = filled_with(0);
        voxels[index(x, y, z)] = EBlockType::Stone.id();
        let chunk = meshed(origin(), voxels);
        assert_eq!(chunk.vertices().len(), 24);
        assert_eq!(chunk.triangles().len(), 36);
    }
}

#[test]
fn vertices_lie_in_world_space() {
    let mut voxels = filled_with(0);
    voxels[index(0, 0, 0)] = EBlockType::Stone.id();
    let chunk = meshed(ChunkCoord { x: 2, y: -1 }, voxels.clone());
    assert_eq!(
        chunk.vertices()[0..4],
        [vertex(20, -10, -10), vertex(20, -9, -10), vertex(21, -10, -10), vertex(21, -9, -10)]
    );
    let far = meshed(ChunkCoord { x: i32::MAX, y: i32::MIN }, voxels);
    assert_eq!(far.vertices()[0], vertex(21474836470, -10, -21474836480));
    assert_eq!(far.vertices()[2], vertex(21474836471, -10, -21474836480));
}

#[test]
fn a_solid_chunk_shows_only_its_shell() {
    let chunk = meshed(origin(), filled_with(EBlockType::Stone.id()));
    // Two sides of 10 x 20, two of 20 x 10, top and bottom of 10 x 10.
    assert_eq!(chunk.mesh().face_count(), 1000);
    assert_eq!(chunk.vertices().len(), 4000);
    assert_eq!(chunk.triangles().len(), 6000);
    assert_indices_valid(&chunk);
    // No vertex lies strictly inside the chunk.
    for v in chunk.vertices() {
        let on_shell = v.x == 0 || v.x == 10 || v.y == -10 || v.y == 10 || v.z == 0 || v.z == 10;
        assert!(on_shell);
    }
}

#[test]
fn an_enclosed_air_cell_adds_six_faces_around_it() {
    let mut voxels = filled_with(EBlockType::Stone.id());
    voxels[index(4, 7, 5)] = EBlockType::Air.id();
    let chunk = meshed(origin(), voxels);
    assert_eq!(chunk.mesh().face_count(), 1006);
    assert_indices_valid(&chunk);
    // The only vertices inside the chunk are corners of the air cell.
    let mut inside = 0;
    for v in chunk.vertices() {
        let on_shell = v.x == 0 || v.x == 10 || v.y == -10 || v.y == 10 || v.z == 0 || v.z == 10;
        if !on_shell {
            inside += 1;
            assert!(4 <= v.x && v.x <= 5);
            assert!(-3 <= v.y && v.y <= -2);
            assert!(5 <= v.z && v.z <= 6);
        }
    }
    assert_eq!(inside, 24);
}

#[test]
fn two_touching_voxels_hide_the_faces_between_them() {
    let mut voxels = filled_with(0);
    voxels[index(3, 3, 3)] = EBlockType::Stone.id();
    voxels[index(4, 3, 3)] = EBlockType::Stone.id();
    let chunk = meshed(origin(), voxels);
    assert_eq!(chunk.mesh().face_count(), 10);
    assert_indices_valid(&chunk);
}

#[test]
fn faces_come_layer_by_layer() {
    let mut voxels = filled_with(0);
    voxels[index(9, 0, 9)] = EBlockType::Stone.id();
    voxels[index(0, 1, 0)] = EBlockType::Sand.id();
    voxels[index(0, 0, 5)] = EBlockType::BedRock.id();
    let chunk = meshed(origin(), voxels);
    assert_eq!(chunk.mesh().face_count(), 18);
    // Layer 0 first, within it x before z; then layer 1.
    assert_eq!(chunk.vertices()[0], vertex(0, -10, 5));
    assert_eq!(chunk.vertices()[24], vertex(9, -10, 9));
    assert_eq!(chunk.vertices()[48], vertex(0, -9, 0));
    assert_eq!(chunk.uvs()[0], uv(255, 745));
    assert_eq!(chunk.uvs()[24], uv(5, 245));
    assert_eq!(chunk.uvs()[48], uv(505, 745));
}

#[test]
fn a_kind_that_is_not_solid_shows_no_face_and_hides_none() {
    let mut glass = BlockType::new_stone();
    glass.is_solid = false;
    let registry = Block { block_types: vec![BlockType::new_air(), BlockType::new_stone(), glass] };
    let mut voxels = filled_with(0);
    voxels[index(3, 3, 3)] = 1;
    voxels[index(4, 3, 3)] = 2;
    let mut chunk = Chunk::from_voxels(origin(), voxels).unwrap();
    chunk.create_mesh_data(&registry);
    assert_eq!(chunk.mesh().face_count(), 6);
}

#[test]
fn an_open_cell_inside_always_adds_six_faces() {
    for (x, y, z) in [(1, 1, 1), (8, 18, 8), (1, 18, 8), (5, 10, 5), (8, 1, 1)] {
        let mut voxels = filled_with(EBlockType::Stone.id());
        voxels[index(x, y, z)] = EBlockType::Air.id();
        let chunk = meshed(origin(), voxels);
        assert_eq!(chunk.mesh().face_count(), 1006);
        assert_eq!(chunk.vertices().len(), 4024);
        assert_eq!(chunk.triangles().len(), 6036);
        assert_indices_valid(&chunk);
    }
}

#[test]
fn an_open_cell_at_the_edge_takes_a_face_from_the_shell() {
    let mut voxels = filled_with(EBlockType::Stone.id());
    voxels[index(0, 5, 5)] = EBlockType::Air.id();
    let chunk = meshed(origin(), voxels);
    // One face of the shell is gone, five sides of the open cell show.
    assert_eq!(chunk.mesh().face_count(), 1000 - 1 + 5);
}
