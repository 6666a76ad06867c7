//! One chunk of the world: its voxel grid and the surface mesh built from
//! it.

use vstd::prelude::*;
use crate::noise::basic_perlin::NoiseField;
use crate::noise::perlin::{Vector2, ONE, TWO};
use crate::voxel::block::{Block, BlockTypeView, EBlockType};
use crate::voxel::mesh::{
    face_indices,
    face_uvs,
    MeshBuffers,
    MeshView,
    TexCoord,
    Vertex,
    VoxelData,
    VoxelPos,
};
use crate::voxel::surface::{
    in_chunk,
    lemma_slot_parts,
    lemma_surface_well_formed,
    extended,
    face_visible,
    lemma_extended_by_none,
    lemma_extended_mesh_of,
    lemma_extended_push,
    lemma_extended_shape,
    lemma_voxel_slots_bounded,
    lemma_voxel_slots_follow,
    mesh_triangles_from,
    voxel_slots,
    lemma_visible_slots_bounded,
    mesh_covers,
    mesh_of,
    mesh_uvs,
    mesh_vertices,
    mesh_triangles,
    slot_count,
    slot_face,
    slot_of,
    slot_texture,
    slot_vertex,
    slot_x,
    slot_y,
    slot_z,
    solid_at,
    surface,
    visible_slots,
    voxel_at,
    voxel_index,
    voxel_x,
    voxel_y,
    voxel_z,
};
use crate::voxel::terrain::{
    block_in_column,
    block_type_at,
    column_height,
    terrain_height_of,
    terrain_voxels,
    world_column,
};

verus! {

/// Position of a chunk on the horizontal chunk grid.
#[derive(Clone, Copy, Debug, PartialEq, Eq, Hash, Structural)]
pub struct ChunkCoord {
    pub x: i32,
    pub y: i32,
}

impl ChunkCoord {
    /// The chunk at the origin.
    pub fn new() -> (coord: ChunkCoord)
        ensures
            coord == (ChunkCoord { x: 0, y: 0 }),
    {
        ChunkCoord { x: 0, y: 0 }
    }
}

/// The triangles of a well-formed chunk name vertices of that chunk, three
/// to a triangle.
pub proof fn lemma_chunk_indices_valid(chunk: ChunkView, i: int)
    requires
        chunk.well_formed(),
        0 <= i < chunk.mesh.triangles.len(),
    ensures
        chunk.mesh.triangles[i] < chunk.mesh.vertices.len(),
        chunk.mesh.triangles.len() % 3 == 0,
        chunk.mesh.uvs.len() == chunk.mesh.vertices.len(),
{
}

/// How far a chunk has come: created without voxels, filled with voxels,
/// or filled and meshed. A chunk only ever moves forward through these.
#[derive(Clone, Copy, Debug, PartialEq, Eq, Structural)]
pub enum ChunkState {
    Empty,
    VoxelsReady,
    MeshReady,
}

/// One chunk: its place in the world, its voxels, the mesh built from them,
/// and whether it is presently shown.
pub struct Chunk {
    mesh: MeshBuffers,
    voxel_map: Vec<i32>,
    chunk_coord: ChunkCoord,
    state: ChunkState,
    is_active: bool,
}

/// The mathematical content of a [`Chunk`].
pub struct ChunkView {
    pub coord: ChunkCoord,
    pub voxels: Seq<i32>,
    pub mesh: MeshView,
    pub state: ChunkState,
    pub active: bool,
}

impl View for Chunk {
    type V = ChunkView;

    closed spec fn view(&self) -> ChunkView {
        ChunkView {
            coord: self.chunk_coord,
            voxels: self.voxel_map@,
            mesh: self.mesh@,
            state: self.state,
            active: self.is_active,
        }
    }
}

impl ChunkView {
    /// The voxels and the mesh fit the state: no voxels before the grid is
    /// filled, no mesh before it is built, and a well-formed mesh after.
    pub open spec fn well_formed(self) -> bool {
        match self.state {
            ChunkState::Empty => self.voxels.len() == 0 && self.mesh.is_empty(),
            ChunkState::VoxelsReady => self.voxels.len() == VoxelData::CHUNK_VOLUME
                && self.mesh.is_empty(),
            ChunkState::MeshReady => self.voxels.len() == VoxelData::CHUNK_VOLUME
                && self.mesh.well_formed(),
        }
    }

    /// The chunk is meshed, and its mesh is the visible surface of its
    /// voxels under the kinds `kinds`.
    pub open spec fn meshed_with(self, kinds: Seq<BlockTypeView>) -> bool {
        &&& self.state == ChunkState::MeshReady
        &&& self.voxels.len() == VoxelData::CHUNK_VOLUME
        &&& mesh_covers(self.mesh, self.voxels, kinds, self.coord, slot_count())
    }
}

/// The chunk at `coord` as it is when it has been filled with the terrain of
/// the noise field `noise` and meshed with the kinds `kinds`.
#[verifier::opaque]
pub open spec fn generated_chunk(
    noise: NoiseField,
    kinds: Seq<BlockTypeView>,
    coord: ChunkCoord,
    active: bool,
) -> ChunkView {
    ChunkView {
        coord,
        voxels: terrain_voxels(noise, coord),
        mesh: surface(terrain_voxels(noise, coord), kinds, coord, slot_count()),
        state: ChunkState::MeshReady,
        active,
    }
}

/// A generated chunk lies at its coordinate, is well formed and meshed, and
/// showing or hiding it changes nothing else.
pub proof fn lemma_generated_chunk(
    noise: NoiseField,
    kinds: Seq<BlockTypeView>,
    coord: ChunkCoord,
    active: bool,
)
    ensures
        generated_chunk(noise, kinds, coord, active).coord == coord,
        generated_chunk(noise, kinds, coord, active).active == active,
        generated_chunk(noise, kinds, coord, active).state == ChunkState::MeshReady,
        generated_chunk(noise, kinds, coord, active).voxels == terrain_voxels(noise, coord),
        generated_chunk(noise, kinds, coord, active).meshed_with(kinds),
        generated_chunk(noise, kinds, coord, active).well_formed(),
        forall|shown: bool|
            (ChunkView { active: shown, ..generated_chunk(noise, kinds, coord, active) })
                == #[trigger] generated_chunk(noise, kinds, coord, shown),
{
    reveal(generated_chunk);
    lemma_surface_well_formed(terrain_voxels(noise, coord), kinds, coord, slot_count());
}

/// Whether the cell at `(x, y, z)` of the full grid `voxels` is filled.
fn solid_cell(voxels: &Vec<i32>, registry: &Block, x: i32, y: i32, z: i32) -> (solid: bool)
    requires
        voxels@.len() == VoxelData::CHUNK_VOLUME,
    ensures
        solid == solid_at(voxels@, registry@, x as int, y as int, z as int),
{
    if !Chunk::isin_voxel_in_chunk(x, y, z) {
        return false;
    }
    registry.is_solid(voxels[Chunk::index_of(x, y, z)])
}

/// Appends the four corners of face `face` of the voxel at `pos` of the
/// chunk at `coord`.
fn add_face_vertices(vertices: &mut Vec<Vertex>, coord: ChunkCoord, pos: VoxelPos, face: usize)
    requires
        in_chunk(pos.x as int, pos.y as int, pos.z as int),
        face < 6,
    ensures
        final(vertices)@.len() == old(vertices)@.len() + 4,
        forall|i: int| 0 <= i < old(vertices)@.len() ==> final(vertices)@[i] == old(vertices)@[i],
        forall|k: int|
            0 <= k < 4 ==> #[trigger] final(vertices)@[old(vertices)@.len() + k] == slot_vertex(
                coord,
                slot_of(pos.x as int, pos.y as int, pos.z as int, face as int),
                k,
            ),
{
    let ghost slot = slot_of(pos.x as int, pos.y as int, pos.z as int, face as int);
    proof {
        assert(slot_x(slot) == pos.x && slot_y(slot) == pos.y && slot_z(slot) == pos.z
            && slot_face(slot) == face);
    }
    let offset_x: i64 = coord.x as i64 * VoxelData::CHUNK_WIDTH as i64;
    let offset_y: i64 = VoxelData::MESH_BASE_HEIGHT as i64;
    let offset_z: i64 = coord.y as i64 * VoxelData::CHUNK_WIDTH as i64;
    let mut corner: usize = 0;
    while corner < 4
        invariant
            corner <= 4,
            face < 6,
            in_chunk(pos.x as int, pos.y as int, pos.z as int),
            slot == slot_of(pos.x as int, pos.y as int, pos.z as int, face as int),
            slot_x(slot) == pos.x && slot_y(slot) == pos.y && slot_z(slot) == pos.z && slot_face(
                slot,
            ) == face,
            offset_x == coord.x * VoxelData::CHUNK_WIDTH,
            offset_y == VoxelData::MESH_BASE_HEIGHT,
            offset_z == coord.y * VoxelData::CHUNK_WIDTH,
            vertices@.len() == old(vertices)@.len() + corner,
            forall|i: int| 0 <= i < old(vertices)@.len() ==> vertices@[i] == old(vertices)@[i],
            forall|k: int|
                0 <= k < corner ==> #[trigger] vertices@[old(vertices)@.len() + k] == slot_vertex(
                    coord,
                    slot,
                    k,
                ),
        decreases 4 - corner,
    {
        let at = VoxelData::voxel_vert(VoxelData::voxel_tri(face, corner));
        vertices.push(
            Vertex {
                x: pos.x as i64 + at.x as i64 + offset_x,
                y: pos.y as i64 + at.y as i64 + offset_y,
                z: pos.z as i64 + at.z as i64 + offset_z,
            },
        );
        corner += 1;
    }
}

/// Appends the six indices of a face whose first vertex is `first`.
fn add_face_indices(triangles: &mut Vec<u32>, first: u32)
    requires
        first <= 0x1_0000_0000 - 4,
    ensures
        final(triangles)@ == old(triangles)@ + face_indices(first as int),
{
    triangles.push(first);
    triangles.push(first + 1);
    triangles.push(first + 2);
    triangles.push(first + 2);
    triangles.push(first + 1);
    triangles.push(first + 3);
    assert(triangles@ =~= old(triangles)@ + face_indices(first as int));
}

/// Appends the face `face` of the voxel at `pos` to the mesh.
fn add_face_to(
    mesh: &mut MeshBuffers,
    voxels: &Vec<i32>,
    registry: &Block,
    coord: ChunkCoord,
    pos: VoxelPos,
    face: usize,
)
    requires
        in_chunk(pos.x as int, pos.y as int, pos.z as int),
        face < 6,
        voxels@.len() == VoxelData::CHUNK_VOLUME,
        old(mesh)@.vertices.len() + 4 <= u32::MAX,
    ensures
        final(mesh)@ == extended(
            old(mesh)@,
            voxels@,
            registry@,
            coord,
            seq![slot_of(pos.x as int, pos.y as int, pos.z as int, face as int)],
        ),
{
    let ghost slot = slot_of(pos.x as int, pos.y as int, pos.z as int, face as int);
    proof {
        lemma_slot_parts(pos.x as int, pos.y as int, pos.z as int, face as int);
    }
    let vertex_index: u32 = mesh.vertices.len() as u32;
    add_face_vertices(&mut mesh.vertices, coord, pos, face);
    let block_id: i32 = voxels[Chunk::index_of(pos.x, pos.y, pos.z)];
    mesh.add_texture(registry.face_texture(block_id, face as i32));
    add_face_indices(&mut mesh.triangles, vertex_index);
    proof {
        let after = extended(old(mesh)@, voxels@, registry@, coord, seq![slot]);
        let count = old(mesh)@.vertices.len() as int;
        assert forall|i: int| 0 <= i < after.vertices.len() implies mesh@.vertices[i]
            == after.vertices[i] by {
            if i >= count {
                let k = i - count;
                assert(k / 4 == 0 && k % 4 == k);
                assert(mesh@.vertices[count + k] == slot_vertex(coord, slot, k));
                assert(mesh_vertices(coord, seq![slot])[k] == slot_vertex(coord, seq![slot][0], k));
            }
        }
        assert(mesh@.vertices =~= after.vertices);
        assert(mesh_uvs(voxels@, registry@, seq![slot]) =~= face_uvs(
            slot_texture(voxels@, registry@, slot),
        ));
        assert(mesh@.uvs =~= after.uvs);
        assert(mesh_triangles_from(count, 1) =~= face_indices(count));
        assert(mesh@.triangles =~= after.triangles);
    }
}

impl Chunk {
    /// Where the voxel at `(x, y, z)` is stored in a grid: the grid runs
    /// through `x`, within one `x` through the layers, and within a layer
    /// through `z`.
    pub fn index_of(x: i32, y: i32, z: i32) -> (index: usize)
        requires
            in_chunk(x as int, y as int, z as int),
        ensures
            index == voxel_index(x as int, y as int, z as int),
            index < VoxelData::CHUNK_VOLUME,
    {
        ((x * VoxelData::CHUNK_HEIGHT + y) * VoxelData::CHUNK_WIDTH + z) as usize
    }

    /// Whether `(x, y, z)` lies inside the grid of a chunk.
    pub fn isin_voxel_in_chunk(x: i32, y: i32, z: i32) -> (inside: bool)
        ensures
            inside == in_chunk(x as int, y as int, z as int),
    {
        if x < 0 || x > VoxelData::CHUNK_WIDTH - 1 || y < 0 || y > VoxelData::CHUNK_HEIGHT - 1 || z
            < 0 || z > VoxelData::CHUNK_WIDTH - 1 {
            return false;
        }
        return true;
    }

    /// Appends to `mesh` the faces that the voxel at `pos` shows, in the
    /// order of the faces. A voxel that is not filled shows none, and
    /// neither does a position outside the grid: the mesh is then left as
    /// it is. What the mesh held before stays at its beginning.
    fn add_voxel_data(
        mesh: &mut MeshBuffers,
        voxels: &Vec<i32>,
        registry: &Block,
        coord: ChunkCoord,
        pos: VoxelPos,
    )
        requires
            voxels@.len() == VoxelData::CHUNK_VOLUME,
            old(mesh)@.vertices.len() + 24 <= u32::MAX,
        ensures
            final(mesh)@ == extended(
                old(mesh)@,
                voxels@,
                registry@,
                coord,
                voxel_slots(voxels@, registry@, pos.x as int, pos.y as int, pos.z as int, 6),
            ),
            !solid_at(voxels@, registry@, pos.x as int, pos.y as int, pos.z as int) ==> final(mesh)@
                == old(mesh)@,
            old(mesh)@.vertices.is_prefix_of(final(mesh)@.vertices),
            old(mesh)@.uvs.is_prefix_of(final(mesh)@.uvs),
            old(mesh)@.triangles.is_prefix_of(final(mesh)@.triangles),
            old(mesh)@.uvs.len() == old(mesh)@.vertices.len() ==> final(mesh)@.uvs.len()
                == final(mesh)@.vertices.len(),
            old(mesh)@.triangles.len() % 3 == 0 ==> final(mesh)@.triangles.len() % 3 == 0,
    {
        proof {
            let shown = voxel_slots(
                voxels@,
                registry@,
                pos.x as int,
                pos.y as int,
                pos.z as int,
                6,
            );
            lemma_voxel_slots_bounded(
                voxels@,
                registry@,
                pos.x as int,
                pos.y as int,
                pos.z as int,
                6,
            );
            lemma_extended_by_none(old(mesh)@, voxels@, registry@, coord);
            lemma_extended_shape(old(mesh)@, voxels@, registry@, coord, shown);
        }
        if !Self::isin_voxel_in_chunk(pos.x, pos.y, pos.z) {
            return;
        }
        let mut p: usize = 0;
        while p < 6
            invariant
                p <= 6,
                in_chunk(pos.x as int, pos.y as int, pos.z as int),
                voxels@.len() == VoxelData::CHUNK_VOLUME,
                old(mesh)@.vertices.len() + 24 <= u32::MAX,
                mesh@ == extended(
                    old(mesh)@,
                    voxels@,
                    registry@,
                    coord,
                    voxel_slots(
                        voxels@,
                        registry@,
                        pos.x as int,
                        pos.y as int,
                        pos.z as int,
                        p as nat,
                    ),
                ),
            decreases 6 - p,
        {
            let ghost shown = voxel_slots(
                voxels@,
                registry@,
                pos.x as int,
                pos.y as int,
                pos.z as int,
                p as nat,
            );
            proof {
                lemma_voxel_slots_bounded(
                    voxels@,
                    registry@,
                    pos.x as int,
                    pos.y as int,
                    pos.z as int,
                    p as nat,
                );
            }
            let step = VoxelData::face_check(p);
            if solid_cell(voxels, registry, pos.x, pos.y, pos.z) && !solid_cell(
                voxels,
                registry,
                pos.x + step.x,
                pos.y + step.y,
                pos.z + step.z,
            ) {
                add_face_to(mesh, voxels, registry, coord, pos, p);
                proof {
                    lemma_extended_push(
                        old(mesh)@,
                        voxels@,
                        registry@,
                        coord,
                        shown,
                        slot_of(pos.x as int, pos.y as int, pos.z as int, p as int),
                    );
                }
            }
            p += 1;
        }
    }

    /// The surface of the full grid `voxels` of the chunk at `coord`: every
    /// face of a filled voxel whose neighbour across the face is not filled.
    fn build_mesh(voxels: &Vec<i32>, registry: &Block, coord: ChunkCoord) -> (mesh: MeshBuffers)
        requires
            voxels@.len() == VoxelData::CHUNK_VOLUME,
        ensures
            mesh_covers(mesh@, voxels@, registry@, coord, slot_count()),
            mesh@.well_formed(),
    {
        let mut mesh = MeshBuffers::new();
        assert(mesh@.vertices =~= mesh_vertices(coord, Seq::empty()));
        assert(mesh@.uvs =~= mesh_uvs(voxels@, registry@, Seq::empty()));
        assert(mesh@.triangles =~= mesh_triangles(0));
        let mut y: i32 = 0;
        while y < VoxelData::CHUNK_HEIGHT
            invariant
                0 <= y <= VoxelData::CHUNK_HEIGHT,
                voxels@.len() == VoxelData::CHUNK_VOLUME,
                mesh_covers(mesh@, voxels@, registry@, coord, slot_of(0, y as int, 0, 0) as nat),
            decreases VoxelData::CHUNK_HEIGHT - y,
        {
            let mut x: i32 = 0;
            while x < VoxelData::CHUNK_WIDTH
                invariant
                    0 <= y < VoxelData::CHUNK_HEIGHT,
                    0 <= x <= VoxelData::CHUNK_WIDTH,
                    voxels@.len() == VoxelData::CHUNK_VOLUME,
                    mesh_covers(
                        mesh@,
                        voxels@,
                        registry@,
                        coord,
                        slot_of(x as int, y as int, 0, 0) as nat,
                    ),
                decreases VoxelData::CHUNK_WIDTH - x,
            {
                let mut z: i32 = 0;
                while z < VoxelData::CHUNK_WIDTH
                    invariant
                        0 <= y < VoxelData::CHUNK_HEIGHT,
                        0 <= x < VoxelData::CHUNK_WIDTH,
                        0 <= z <= VoxelData::CHUNK_WIDTH,
                        voxels@.len() == VoxelData::CHUNK_VOLUME,
                        mesh_covers(
                            mesh@,
                            voxels@,
                            registry@,
                            coord,
                            slot_of(x as int, y as int, z as int, 0) as nat,
                        ),
                    decreases VoxelData::CHUNK_WIDTH - z,
                {
                    proof {
                        let done = slot_of(x as int, y as int, z as int, 0);
                        lemma_slot_parts(x as int, y as int, z as int, 0);
                        lemma_visible_slots_bounded(voxels@, registry@, done as nat);
                        lemma_voxel_slots_follow(voxels@, registry@, x as int, y as int, z as int, 6);
                        lemma_extended_mesh_of(
                            voxels@,
                            registry@,
                            coord,
                            visible_slots(voxels@, registry@, done as nat),
                            voxel_slots(voxels@, registry@, x as int, y as int, z as int, 6),
                        );
                    }
                    Self::add_voxel_data(&mut mesh, voxels, registry, coord, VoxelPos { x, y, z });
                    z += 1;
                }
                x += 1;
            }
            y += 1;
        }
        proof {
            lemma_surface_well_formed(voxels@, registry@, coord, slot_count());
        }
        mesh
    }
}

impl Chunk {
    /// The height of the terrain where the noise field has the value
    /// `sample`.
    pub fn terrain_height(sample: i64) -> (height: i32)
        requires
            -ONE <= sample <= ONE,
        ensures
            height == terrain_height_of(sample as int),
            0 <= height <= VoxelData::CHUNK_HEIGHT - 1,
    {
        let layers: i64 = (VoxelData::CHUNK_HEIGHT - 1) as i64;
        ((layers * (sample + ONE)) / TWO) as i32
    }

    /// The world column of the local column `(x, z)` of the chunk at
    /// `chunk_coord`; the result holds the world `z` in its `y`.
    pub fn voxel_to_world_pos(x: i32, z: i32, chunk_coord: ChunkCoord) -> (column: Vector2)
        ensures
            (column.x as int, column.y as int) == world_column(chunk_coord, x as int, z as int),
    {
        let offset_x: i64 = chunk_coord.x as i64 * VoxelData::CHUNK_WIDTH as i64;
        let offset_z: i64 = chunk_coord.y as i64 * VoxelData::CHUNK_WIDTH as i64;
        Vector2 { x: x as i64 + offset_x, y: z as i64 + offset_z }
    }

    /// The height of the terrain in the local column `(x, z)` of the chunk
    /// at `chunk_coord`.
    pub fn terrain_height_at(x: i32, z: i32, chunk_coord: ChunkCoord, noise: &NoiseField) -> (height:
        i32)
        ensures
            height == column_height(
                *noise,
                world_column(chunk_coord, x as int, z as int).0,
                world_column(chunk_coord, x as int, z as int).1,
            ),
            0 <= height <= VoxelData::CHUNK_HEIGHT - 1,
    {
        let world_pos = Self::voxel_to_world_pos(x, z, chunk_coord);
        let result = noise.sample(world_pos.x * ONE, world_pos.y * ONE);
        Self::terrain_height(result)
    }

    /// The block in layer `y` of a column whose terrain has height
    /// `terrain_height`.
    pub fn block_in_layer(y: i32, terrain_height: i32) -> (id: i32)
        ensures
            id == block_in_column(y as int, terrain_height as int),
    {
        if y < 1 {
            EBlockType::BedRock.id()
        } else if y == terrain_height {
            EBlockType::Grass.id()
        } else if y < terrain_height {
            EBlockType::Stone.id()
        } else {
            EBlockType::Air.id()
        }
    }

    /// The block that the terrain puts at `pos` of the chunk at
    /// `chunk_coord`.
    pub fn get_block_type(pos: VoxelPos, chunk_coord: ChunkCoord, noise: &NoiseField) -> (id: i32)
        ensures
            id == block_type_at(*noise, chunk_coord, pos.x as int, pos.y as int, pos.z as int),
    {
        if pos.y < 1 {
            return EBlockType::BedRock.id();
        }
        let terrain_height = Self::terrain_height_at(pos.x, pos.z, chunk_coord, noise);
        Self::block_in_layer(pos.y, terrain_height)
    }

    /// The heights of the terrain in the columns `(x, 0)`, `(x, 1)` and so
    /// on of the chunk at `chunk_coord`.
    fn row_heights(x: i32, chunk_coord: ChunkCoord, noise: &NoiseField) -> (heights: Vec<i32>)
        ensures
            heights@.len() == VoxelData::CHUNK_WIDTH,
            forall|z: int|
                0 <= z < VoxelData::CHUNK_WIDTH ==> #[trigger] heights@[z] == column_height(
                    *noise,
                    world_column(chunk_coord, x as int, z).0,
                    world_column(chunk_coord, x as int, z).1,
                ),
    {
        let mut heights: Vec<i32> = Vec::new();
        let mut z: i32 = 0;
        while z < VoxelData::CHUNK_WIDTH
            invariant
                0 <= z <= VoxelData::CHUNK_WIDTH,
                heights@.len() == z,
                forall|k: int|
                    0 <= k < z ==> #[trigger] heights@[k] == column_height(
                        *noise,
                        world_column(chunk_coord, x as int, k).0,
                        world_column(chunk_coord, x as int, k).1,
                    ),
            decreases VoxelData::CHUNK_WIDTH - z,
        {
            heights.push(Self::terrain_height_at(x, z, chunk_coord, noise));
            z += 1;
        }
        heights
    }

    /// The grid that the terrain gives the chunk at `chunk_coord`.
    fn terrain_grid(chunk_coord: ChunkCoord, noise: &NoiseField) -> (voxels: Vec<i32>)
        ensures
            voxels@ == terrain_voxels(*noise, chunk_coord),
    {
        let mut voxels: Vec<i32> = Vec::new();
        let mut x: i32 = 0;
        while x < VoxelData::CHUNK_WIDTH
            invariant
                0 <= x <= VoxelData::CHUNK_WIDTH,
                voxels@.len() == voxel_index(x as int, 0, 0),
                forall|i: int|
                    0 <= i < voxels@.len() ==> voxels@[i] == #[trigger] terrain_voxels(
                        *noise,
                        chunk_coord,
                    )[i],
            decreases VoxelData::CHUNK_WIDTH - x,
        {
            let heights = Self::row_heights(x, chunk_coord, noise);
            let mut y: i32 = 0;
            while y < VoxelData::CHUNK_HEIGHT
                invariant
                    0 <= x < VoxelData::CHUNK_WIDTH,
                    0 <= y <= VoxelData::CHUNK_HEIGHT,
                    voxels@.len() == voxel_index(x as int, y as int, 0),
                    heights@.len() == VoxelData::CHUNK_WIDTH,
                    forall|z: int|
                        0 <= z < VoxelData::CHUNK_WIDTH ==> #[trigger] heights@[z]
                            == column_height(
                            *noise,
                            world_column(chunk_coord, x as int, z).0,
                            world_column(chunk_coord, x as int, z).1,
                        ),
                    forall|i: int|
                        0 <= i < voxels@.len() ==> voxels@[i] == #[trigger] terrain_voxels(
                            *noise,
                            chunk_coord,
                        )[i],
                decreases VoxelData::CHUNK_HEIGHT - y,
            {
                let mut z: i32 = 0;
                while z < VoxelData::CHUNK_WIDTH
                    invariant
                        0 <= x < VoxelData::CHUNK_WIDTH,
                        0 <= y < VoxelData::CHUNK_HEIGHT,
                        0 <= z <= VoxelData::CHUNK_WIDTH,
                        voxels@.len() == voxel_index(x as int, y as int, z as int),
                        heights@.len() == VoxelData::CHUNK_WIDTH,
                        forall|k: int|
                            0 <= k < VoxelData::CHUNK_WIDTH ==> #[trigger] heights@[k]
                                == column_height(
                                *noise,
                                world_column(chunk_coord, x as int, k).0,
                                world_column(chunk_coord, x as int, k).1,
                            ),
                        forall|i: int|
                            0 <= i < voxels@.len() ==> voxels@[i] == #[trigger] terrain_voxels(
                                *noise,
                                chunk_coord,
                            )[i],
                    decreases VoxelData::CHUNK_WIDTH - z,
                {
                    let ghost index = voxel_index(x as int, y as int, z as int);
                    assert(voxel_x(index) == x && voxel_y(index) == y && voxel_z(index) == z);
                    let id = Self::block_in_layer(y, heights[z as usize]);
                    voxels.push(id);
                    z += 1;
                }
                y += 1;
            }
            x += 1;
        }
        assert(voxels@ =~= terrain_voxels(*noise, chunk_coord));
        voxels
    }

    /// A chunk at the origin that has no voxels yet.
    pub fn default() -> (chunk: Chunk)
        ensures
            chunk@.coord == (ChunkCoord { x: 0, y: 0 }),
            chunk@.state == ChunkState::Empty,
            !chunk@.active,
            chunk@.well_formed(),
    {
        Chunk {
            mesh: MeshBuffers::new(),
            voxel_map: Vec::new(),
            chunk_coord: ChunkCoord { x: 0, y: 0 },
            state: ChunkState::Empty,
            is_active: false,
        }
    }

    /// A chunk at `chunk_coord` that has no voxels yet.
    pub fn empty(chunk_coord: ChunkCoord) -> (chunk: Chunk)
        ensures
            chunk@.coord == chunk_coord,
            chunk@.state == ChunkState::Empty,
            !chunk@.active,
            chunk@.well_formed(),
    {
        Chunk {
            mesh: MeshBuffers::new(),
            voxel_map: Vec::new(),
            chunk_coord,
            state: ChunkState::Empty,
            is_active: false,
        }
    }

    /// A chunk at `chunk_coord` with the given voxels, not yet meshed;
    /// `None` unless `voxels` holds one block for each cell of the grid.
    /// The block of the cell `(x, y, z)` stands at `index_of(x, y, z)`.
    pub fn from_voxels(chunk_coord: ChunkCoord, voxels: Vec<i32>) -> (chunk: Option<Chunk>)
        ensures
            chunk.is_some() == (voxels@.len() == VoxelData::CHUNK_VOLUME),
            chunk.is_some() ==> {
                &&& chunk.unwrap()@.coord == chunk_coord
                &&& chunk.unwrap()@.voxels == voxels@
                &&& chunk.unwrap()@.state == ChunkState::VoxelsReady
                &&& !chunk.unwrap()@.active
                &&& chunk.unwrap()@.well_formed()
            },
    {
        if voxels.len() != VoxelData::CHUNK_VOLUME {
            return None;
        }
        Some(
            Chunk {
                mesh: MeshBuffers::new(),
                voxel_map: voxels,
                chunk_coord,
                state: ChunkState::VoxelsReady,
                is_active: false,
            },
        )
    }

    /// Fills the grid of an empty chunk with the terrain of the noise field
    /// `noise`.
    pub fn populate_voxel_map(&mut self, noise: &NoiseField)
        requires
            old(self)@.well_formed(),
            old(self)@.state == ChunkState::Empty,
        ensures
            final(self)@.well_formed(),
            final(self)@.state == ChunkState::VoxelsReady,
            final(self)@.voxels == terrain_voxels(*noise, old(self)@.coord),
            final(self)@.coord == old(self)@.coord,
            final(self)@.active == old(self)@.active,
    {
        self.voxel_map = Self::terrain_grid(self.chunk_coord, noise);
        self.state = ChunkState::VoxelsReady;
    }

    /// Builds the mesh of a chunk whose grid is filled: the faces of its
    /// solid voxels that border on a cell that is not solid, or on the edge
    /// of the grid.
    pub fn create_mesh_data(&mut self, registry: &Block)
        requires
            old(self)@.well_formed(),
            old(self)@.state == ChunkState::VoxelsReady,
        ensures
            final(self)@.well_formed(),
            final(self)@.meshed_with(registry@),
            final(self)@.voxels == old(self)@.voxels,
            final(self)@.coord == old(self)@.coord,
            final(self)@.active == old(self)@.active,
    {
        self.mesh = Self::build_mesh(&self.voxel_map, registry, self.chunk_coord);
        self.state = ChunkState::MeshReady;
    }

    /// The chunk at `chunk_coord`, filled with the terrain of `noise` and
    /// meshed with the kinds of `registry`. It is not active.
    pub fn new(chunk_coord: ChunkCoord, noise: &NoiseField, registry: &Block) -> (chunk: Chunk)
        ensures
            chunk@ == generated_chunk(*noise, registry@, chunk_coord, false),
    {
        let mut chunk = Self::empty(chunk_coord);
        chunk.populate_voxel_map(noise);
        chunk.create_mesh_data(registry);
        proof {
            reveal(generated_chunk);
        }
        chunk
    }

    /// Whether the cell at `pos` is filled. Every cell outside the grid,
    /// and every cell of a chunk without voxels, is open.
    pub fn check_voxel(&self, pos: VoxelPos, registry: &Block) -> (solid: bool)
        requires
            self@.well_formed(),
        ensures
            solid == solid_at(self@.voxels, registry@, pos.x as int, pos.y as int, pos.z as int),
    {
        if self.voxel_map.len() != VoxelData::CHUNK_VOLUME {
            return false;
        }
        solid_cell(&self.voxel_map, registry, pos.x, pos.y, pos.z)
    }

    /// The block at `pos`; air outside the grid and in a chunk without
    /// voxels.
    pub fn voxel(&self, pos: VoxelPos) -> (id: i32)
        requires
            self@.well_formed(),
        ensures
            id == voxel_at(self@.voxels, pos.x as int, pos.y as int, pos.z as int),
    {
        if !Self::isin_voxel_in_chunk(pos.x, pos.y, pos.z) || self.voxel_map.len()
            != VoxelData::CHUNK_VOLUME {
            return 0;
        }
        self.voxel_map[Self::index_of(pos.x, pos.y, pos.z)]
    }

    pub fn chunk_coord(&self) -> (coord: ChunkCoord)
        ensures
            coord == self@.coord,
    {
        self.chunk_coord
    }

    pub fn state(&self) -> (state: ChunkState)
        ensures
            state == self@.state,
    {
        self.state
    }

    /// Whether the grid of the chunk has been filled.
    pub fn is_updated(&self) -> (generated: bool)
        ensures
            generated == (self@.state != ChunkState::Empty),
    {
        match self.state {
            ChunkState::Empty => false,
            _ => true,
        }
    }

    /// Whether the chunk is presently shown.
    pub fn is_active(&self) -> (active: bool)
        ensures
            active == self@.active,
    {
        self.is_active
    }

    /// Shows or hides the chunk; nothing else changes.
    pub fn set_active(&mut self, active: bool)
        ensures
            final(self)@ == (ChunkView { active, ..old(self)@ }),
    {
        self.is_active = active;
    }

    pub fn voxel_map(&self) -> (voxels: &Vec<i32>)
        ensures
            voxels@ == self@.voxels,
    {
        &self.voxel_map
    }

    pub fn mesh(&self) -> (mesh: &MeshBuffers)
        ensures
            mesh@ == self@.mesh,
    {
        &self.mesh
    }

    pub fn vertices(&self) -> (vertices: &Vec<Vertex>)
        ensures
            vertices@ == self@.mesh.vertices,
    {
        &self.mesh.vertices
    }

    pub fn uvs(&self) -> (uvs: &Vec<TexCoord>)
        ensures
            uvs@ == self@.mesh.uvs,
    {
        &self.mesh.uvs
    }

    pub fn triangles(&self) -> (triangles: &Vec<u32>)
        ensures
            triangles@ == self@.mesh.triangles,
    {
        &self.mesh.triangles
    }
}

} // verus!
