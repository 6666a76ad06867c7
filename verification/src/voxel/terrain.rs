//! The terrain: how the noise field shapes the columns of the world.

use vstd::prelude::*;
use crate::noise::basic_perlin::NoiseField;
use crate::noise::perlin::{ONE, TWO};
use crate::voxel::block::EBlockType;
use crate::voxel::chunk::ChunkCoord;
use crate::voxel::mesh::VoxelData;
use crate::voxel::surface::{in_chunk, voxel_index, voxel_x, voxel_y, voxel_z};

verus! {

/// The world column of the local column `(x, z)` of the chunk at `coord`.
pub open spec fn world_column(coord: ChunkCoord, x: int, z: int) -> (int, int) {
    (coord.x * VoxelData::CHUNK_WIDTH + x, coord.y * VoxelData::CHUNK_WIDTH + z)
}

/// The height of the terrain where the noise field has the value `sample`:
/// the range of the field, from minus one to one, is laid evenly over the
/// layers of a chunk, from the lowest to the highest, and the result is
/// rounded down.
pub open spec fn terrain_height_of(sample: int) -> int {
    ((sample + ONE) * (VoxelData::CHUNK_HEIGHT - 1)) / (TWO as int)
}

/// The height of the terrain in the world column `(wx, wz)`.
pub open spec fn column_height(noise: NoiseField, wx: int, wz: int) -> int {
    terrain_height_of(noise.sample_spec(wx * ONE, wz * ONE))
}

/// The block in layer `y` of a column whose terrain has height `height`:
/// bedrock in the lowest layer, grass at the height of the terrain, stone
/// below it and air above.
pub open spec fn block_in_column(y: int, height: int) -> int {
    if y < 1 {
        EBlockType::BedRock.spec_id() as int
    } else if y == height {
        EBlockType::Grass.spec_id() as int
    } else if y < height {
        EBlockType::Stone.spec_id() as int
    } else {
        EBlockType::Air.spec_id() as int
    }
}

/// The block that the terrain puts at `(x, y, z)` of the chunk at `coord`.
pub open spec fn block_type_at(noise: NoiseField, coord: ChunkCoord, x: int, y: int, z: int) -> int {
    let (wx, wz) = world_column(coord, x, z);
    block_in_column(y, column_height(noise, wx, wz))
}

/// The grid that the terrain gives the chunk at `coord`.
pub open spec fn terrain_voxels(noise: NoiseField, coord: ChunkCoord) -> Seq<i32> {
    Seq::new(
        VoxelData::CHUNK_VOLUME as nat,
        |i: int| block_type_at(noise, coord, voxel_x(i), voxel_y(i), voxel_z(i)) as i32,
    )
}

/// The terrain never rises above the highest layer of a chunk nor falls
/// below the lowest: the least sample gives the lowest layer, the greatest
/// the highest, and the middle of the range the middle of the chunk.
pub proof fn lemma_terrain_height_in_chunk(sample: int)
    requires
        -ONE <= sample <= ONE,
    ensures
        0 <= terrain_height_of(sample) <= VoxelData::CHUNK_HEIGHT - 1,
        terrain_height_of(-ONE as int) == 0,
        terrain_height_of(ONE as int) == VoxelData::CHUNK_HEIGHT - 1,
        terrain_height_of(0) == (VoxelData::CHUNK_HEIGHT - 1) / 2,
{
}

/// Under the field that shapes the terrain every column has its surface
/// inside the chunk and above the bedrock: exactly one layer of the column
/// holds grass, the layer at the height of the terrain.
pub proof fn lemma_terrain_has_one_surface(noise: NoiseField, coord: ChunkCoord, x: int, z: int)
    requires
        noise.is_terrain(),
    ensures
        ({
            let height = column_height(
                noise,
                world_column(coord, x, z).0,
                world_column(coord, x, z).1,
            );
            &&& 1 <= height <= VoxelData::CHUNK_HEIGHT - 2
            &&& forall|y: int|
                0 <= y < VoxelData::CHUNK_HEIGHT ==> ((#[trigger] block_type_at(
                    noise,
                    coord,
                    x,
                    y,
                    z,
                )) == EBlockType::Grass.spec_id() <==> y == height)
            &&& block_type_at(noise, coord, x, 0, z) == EBlockType::BedRock.spec_id()
        }),
{
    let (wx, wz) = world_column(coord, x, z);
    noise.lemma_terrain_within_limit(wx * ONE, wz * ONE);
}

/// The terrain of a world column does not depend on the chunk through
/// which the column is reached: two local columns that are the same world
/// column hold the same blocks.
pub proof fn lemma_border_consistency(
    noise: NoiseField,
    first: ChunkCoord,
    first_x: int,
    first_z: int,
    second: ChunkCoord,
    second_x: int,
    second_z: int,
    y: int,
)
    requires
        world_column(first, first_x, first_z) == world_column(second, second_x, second_z),
    ensures
        column_height(
            noise,
            world_column(first, first_x, first_z).0,
            world_column(first, first_x, first_z).1,
        ) == column_height(
            noise,
            world_column(second, second_x, second_z).0,
            world_column(second, second_x, second_z).1,
        ),
        block_type_at(noise, first, first_x, y, first_z) == block_type_at(
            noise,
            second,
            second_x,
            y,
            second_z,
        ),
{
}

/// The layers of a terrain column: bedrock at the bottom; above it stone
/// below the height of the terrain, grass at that height and nowhere else,
/// and air above.
pub proof fn lemma_column_layers(noise: NoiseField, coord: ChunkCoord, x: int, y: int, z: int)
    requires
        in_chunk(x, y, z),
    ensures
        ({
            let height = column_height(
                noise,
                world_column(coord, x, z).0,
                world_column(coord, x, z).1,
            );
            let block = terrain_voxels(noise, coord)[voxel_index(x, y, z)] as int;
            &&& block == block_type_at(noise, coord, x, y, z)
            &&& 0 <= height <= VoxelData::CHUNK_HEIGHT - 1
            &&& y == 0 ==> block == EBlockType::BedRock.spec_id()
            &&& block == EBlockType::Grass.spec_id() <==> y >= 1 && y == height
            &&& block == EBlockType::Stone.spec_id() <==> 1 <= y < height
            &&& block == EBlockType::Air.spec_id() <==> y >= 1 && y > height
        }),
{
    let index = voxel_index(x, y, z);
    assert(voxel_x(index) == x && voxel_y(index) == y && voxel_z(index) == z);
}

} // verus!
