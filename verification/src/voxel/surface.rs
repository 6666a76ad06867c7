//! The visible surface of a voxel grid: which faces are shown, in which
//! order, and what mesh they make.

use vstd::prelude::*;
use crate::voxel::block::{face_texture_in, is_solid_in, BlockTypeView};
use crate::voxel::chunk::ChunkCoord;
use crate::voxel::mesh::{face_corner, face_indices, face_uvs, MeshView, TexCoord, Vertex, VoxelData};

verus! {

/// Whether `(x, y, z)` lies inside the grid of a chunk.
pub open spec fn in_chunk(x: int, y: int, z: int) -> bool {
    &&& 0 <= x < VoxelData::CHUNK_WIDTH
    &&& 0 <= y < VoxelData::CHUNK_HEIGHT
    &&& 0 <= z < VoxelData::CHUNK_WIDTH
}

/// Where the voxel at `(x, y, z)` is stored in the grid of a chunk.
pub open spec fn voxel_index(x: int, y: int, z: int) -> int {
    (x * VoxelData::CHUNK_HEIGHT + y) * VoxelData::CHUNK_WIDTH + z
}

/// Where a voxel is stored gives back the voxel.
pub proof fn lemma_voxel_parts(x: int, y: int, z: int)
    requires
        in_chunk(x, y, z),
    ensures
        0 <= voxel_index(x, y, z) < VoxelData::CHUNK_VOLUME,
        voxel_x(voxel_index(x, y, z)) == x,
        voxel_y(voxel_index(x, y, z)) == y,
        voxel_z(voxel_index(x, y, z)) == z,
{
}

/// The `x` of the voxel that is stored at `index`.
pub open spec fn voxel_x(index: int) -> int {
    index / 200
}

/// The layer of the voxel that is stored at `index`.
pub open spec fn voxel_y(index: int) -> int {
    (index / 10) % 20
}

/// The `z` of the voxel that is stored at `index`.
pub open spec fn voxel_z(index: int) -> int {
    index % 10
}

/// The block identifier at `(x, y, z)` of the grid `voxels`; air outside
/// the grid.
pub open spec fn voxel_at(voxels: Seq<i32>, x: int, y: int, z: int) -> int {
    if in_chunk(x, y, z) && voxels.len() == VoxelData::CHUNK_VOLUME {
        voxels[voxel_index(x, y, z)] as int
    } else {
        0
    }
}

/// Whether the cell at `(x, y, z)` is filled: it lies inside the grid and
/// holds a solid kind. Nothing is filled outside the grid, or where there is
/// no grid yet.
pub open spec fn solid_at(
    voxels: Seq<i32>,
    kinds: Seq<BlockTypeView>,
    x: int,
    y: int,
    z: int,
) -> bool {
    &&& in_chunk(x, y, z)
    &&& voxels.len() == VoxelData::CHUNK_VOLUME
    &&& is_solid_in(kinds, voxels[voxel_index(x, y, z)] as int)
}

/// Whether the voxel at `(x, y, z)` shows face `face`: the voxel is filled
/// and the cell across that face is not.
pub open spec fn face_visible(
    voxels: Seq<i32>,
    kinds: Seq<BlockTypeView>,
    x: int,
    y: int,
    z: int,
    face: int,
) -> bool {
    let step = VoxelData::spec_face_check(face);
    solid_at(voxels, kinds, x, y, z) && !solid_at(voxels, kinds, x + step.x, y + step.y, z + step.z)
}

/// Number of face slots in a chunk: six for each voxel.
pub open spec fn slot_count() -> nat {
    6 * (VoxelData::CHUNK_VOLUME as nat)
}

/// The slot of face `face` of the voxel at `(x, y, z)`. Slots number the
/// faces in the order in which the mesh lists them: layer by layer from the
/// bottom, within a layer by `x`, then by `z`, then by face.
pub open spec fn slot_of(x: int, y: int, z: int, face: int) -> int {
    ((y * VoxelData::CHUNK_WIDTH + x) * VoxelData::CHUNK_WIDTH + z) * 6 + face
}

/// The `x` of the voxel whose face has slot `slot`.
pub open spec fn slot_x(slot: int) -> int {
    (slot / 60) % 10
}

/// The layer of the voxel whose face has slot `slot`.
pub open spec fn slot_y(slot: int) -> int {
    slot / 600
}

/// The `z` of the voxel whose face has slot `slot`.
pub open spec fn slot_z(slot: int) -> int {
    (slot / 6) % 10
}

/// The face that has slot `slot`.
pub open spec fn slot_face(slot: int) -> int {
    slot % 6
}

/// Whether the face in slot `slot` is shown.
pub open spec fn slot_visible(voxels: Seq<i32>, kinds: Seq<BlockTypeView>, slot: int) -> bool {
    face_visible(voxels, kinds, slot_x(slot), slot_y(slot), slot_z(slot), slot_face(slot))
}

/// The slots below `limit` whose faces are shown, in increasing order.
pub open spec fn visible_slots(voxels: Seq<i32>, kinds: Seq<BlockTypeView>, limit: nat) -> Seq<int>
    decreases limit,
{
    if limit == 0 {
        Seq::empty()
    } else {
        let before = visible_slots(voxels, kinds, (limit - 1) as nat);
        if slot_visible(voxels, kinds, limit - 1) {
            before.push(limit - 1)
        } else {
            before
        }
    }
}

/// Corner `corner` of the face in slot `slot` of the chunk at `coord`, in
/// world space.
pub open spec fn slot_vertex(coord: ChunkCoord, slot: int, corner: int) -> Vertex {
    let at = face_corner(slot_face(slot), corner);
    Vertex {
        x: (coord.x * VoxelData::CHUNK_WIDTH + slot_x(slot) + at.x) as i64,
        y: (slot_y(slot) + at.y + VoxelData::MESH_BASE_HEIGHT) as i64,
        z: (coord.y * VoxelData::CHUNK_WIDTH + slot_z(slot) + at.z) as i64,
    }
}

/// The texture index of the face in slot `slot`.
pub open spec fn slot_texture(voxels: Seq<i32>, kinds: Seq<BlockTypeView>, slot: int) -> int {
    face_texture_in(
        kinds,
        voxel_at(voxels, slot_x(slot), slot_y(slot), slot_z(slot)),
        slot_face(slot),
    )
}

/// The vertices of the faces in `slots`: four for each face, in the order
/// of its corners.
pub open spec fn mesh_vertices(coord: ChunkCoord, slots: Seq<int>) -> Seq<Vertex> {
    Seq::new(4 * slots.len(), |i: int| slot_vertex(coord, slots[i / 4], i % 4))
}

/// The texture coordinates of the faces in `slots`, one for each vertex.
pub open spec fn mesh_uvs(voxels: Seq<i32>, kinds: Seq<BlockTypeView>, slots: Seq<int>) -> Seq<
    TexCoord,
> {
    Seq::new(4 * slots.len(), |i: int| face_uvs(slot_texture(voxels, kinds, slots[i / 4]))[i % 4])
}

/// The indices of a mesh of `faces` faces: for each face the triangles
/// `(0, 1, 2)` and `(2, 1, 3)` of its own four vertices.
pub open spec fn mesh_triangles(faces: nat) -> Seq<u32> {
    Seq::new(6 * faces, |i: int| face_indices(4 * (i / 6))[i % 6])
}

/// The mesh of the faces in `slots` of the grid `voxels` in the chunk at
/// `coord`.
pub open spec fn mesh_of(
    voxels: Seq<i32>,
    kinds: Seq<BlockTypeView>,
    coord: ChunkCoord,
    slots: Seq<int>,
) -> MeshView {
    MeshView {
        vertices: mesh_vertices(coord, slots),
        uvs: mesh_uvs(voxels, kinds, slots),
        triangles: mesh_triangles(slots.len()),
    }
}

/// The surface of the first `limit` slots of the grid `voxels` in the chunk
/// at `coord`: the faces shown, in the order of their slots.
pub open spec fn surface(
    voxels: Seq<i32>,
    kinds: Seq<BlockTypeView>,
    coord: ChunkCoord,
    limit: nat,
) -> MeshView {
    mesh_of(voxels, kinds, coord, visible_slots(voxels, kinds, limit))
}

/// Whether `mesh` is the surface of the first `limit` slots of the grid
/// `voxels` in the chunk at `coord`.
pub open spec fn mesh_covers(
    mesh: MeshView,
    voxels: Seq<i32>,
    kinds: Seq<BlockTypeView>,
    coord: ChunkCoord,
    limit: nat,
) -> bool {
    mesh == surface(voxels, kinds, coord, limit)
}

/// At most `limit` of the first `limit` slots are shown, and each of them
/// is a slot below `limit`.
pub proof fn lemma_visible_slots_bounded(voxels: Seq<i32>, kinds: Seq<BlockTypeView>, limit: nat)
    ensures
        visible_slots(voxels, kinds, limit).len() <= limit,
        forall|i: int|
            0 <= i < visible_slots(voxels, kinds, limit).len() ==> 0 <= (#[trigger] visible_slots(
                voxels,
                kinds,
                limit,
            )[i]) < limit,
    decreases limit,
{
    if limit > 0 {
        lemma_visible_slots_bounded(voxels, kinds, (limit - 1) as nat);
    }
}

/// The surface of any number of slots of a chunk is well formed.
pub proof fn lemma_surface_well_formed(
    voxels: Seq<i32>,
    kinds: Seq<BlockTypeView>,
    coord: ChunkCoord,
    limit: nat,
)
    requires
        limit <= slot_count(),
    ensures
        surface(voxels, kinds, coord, limit).well_formed(),
{
    lemma_visible_slots_bounded(voxels, kinds, limit);
    let mesh = surface(voxels, kinds, coord, limit);
    let faces = visible_slots(voxels, kinds, limit).len();
    assert forall|i: int| 0 <= i < mesh.triangles.len() implies (#[trigger] mesh.triangles[i])
        < mesh.vertices.len() by {
        let face = i / 6;
        assert(0 <= face < faces);
        assert(mesh.triangles[i] == face_indices(4 * face)[i % 6]);
        assert(0 <= VoxelData::spec_quad_index(i % 6) <= 3);
    }
}

/// The slot of a face gives back the voxel and the face that it was made
/// of.
pub proof fn lemma_slot_parts(x: int, y: int, z: int, face: int)
    requires
        in_chunk(x, y, z),
        0 <= face < 6,
    ensures
        0 <= slot_of(x, y, z, face) < slot_count(),
        slot_x(slot_of(x, y, z, face)) == x,
        slot_y(slot_of(x, y, z, face)) == y,
        slot_z(slot_of(x, y, z, face)) == z,
        slot_face(slot_of(x, y, z, face)) == face,
{
}

/// Every slot in the list of shown slots is shown, and every shown slot
/// below the limit is in the list.
pub proof fn lemma_visible_slots_are_visible(
    voxels: Seq<i32>,
    kinds: Seq<BlockTypeView>,
    limit: nat,
)
    ensures
        forall|i: int|
            0 <= i < visible_slots(voxels, kinds, limit).len() ==> slot_visible(
                voxels,
                kinds,
                #[trigger] visible_slots(voxels, kinds, limit)[i],
            ),
        forall|slot: int|
            0 <= slot < limit && slot_visible(voxels, kinds, slot) ==> visible_slots(
                voxels,
                kinds,
                limit,
            ).contains(slot),
    decreases limit,
{
    if limit > 0 {
        let before = visible_slots(voxels, kinds, (limit - 1) as nat);
        let now = visible_slots(voxels, kinds, limit);
        lemma_visible_slots_are_visible(voxels, kinds, (limit - 1) as nat);
        assert forall|slot: int|
            0 <= slot < limit && slot_visible(voxels, kinds, slot) implies now.contains(slot) by {
            if slot == limit - 1 {
                assert(now[now.len() - 1] == slot);
            } else {
                assert(before.contains(slot));
                let i = choose|i: int| 0 <= i < before.len() && before[i] == slot;
                assert(now[i] == slot);
            }
        }
    }
}

/// A voxel whose six neighbours are all filled shows no face: none of its
/// slots is in the surface of the chunk.
pub proof fn lemma_enclosed_voxel_shows_no_face(
    voxels: Seq<i32>,
    kinds: Seq<BlockTypeView>,
    x: int,
    y: int,
    z: int,
    face: int,
)
    requires
        in_chunk(x, y, z),
        0 <= face < 6,
        solid_at(voxels, kinds, x, y, z - 1),
        solid_at(voxels, kinds, x, y, z + 1),
        solid_at(voxels, kinds, x, y + 1, z),
        solid_at(voxels, kinds, x, y - 1, z),
        solid_at(voxels, kinds, x - 1, y, z),
        solid_at(voxels, kinds, x + 1, y, z),
    ensures
        !face_visible(voxels, kinds, x, y, z, face),
        !visible_slots(voxels, kinds, slot_count()).contains(slot_of(x, y, z, face)),
{
    lemma_slot_parts(x, y, z, face);
    lemma_visible_slots_are_visible(voxels, kinds, slot_count());
}

/// A voxel that is not filled shows no face.
pub proof fn lemma_open_voxel_shows_no_face(
    voxels: Seq<i32>,
    kinds: Seq<BlockTypeView>,
    x: int,
    y: int,
    z: int,
    face: int,
)
    requires
        in_chunk(x, y, z),
        0 <= face < 6,
        !solid_at(voxels, kinds, x, y, z),
    ensures
        !face_visible(voxels, kinds, x, y, z, face),
        !visible_slots(voxels, kinds, slot_count()).contains(slot_of(x, y, z, face)),
{
    lemma_slot_parts(x, y, z, face);
    lemma_visible_slots_are_visible(voxels, kinds, slot_count());
}

/// The slots of the voxel at `(x, y, z)` are the six that begin with its
/// first.
proof fn lemma_slots_of_voxel(x: int, y: int, z: int, slot: int)
    requires
        in_chunk(x, y, z),
        0 <= slot < slot_count(),
    ensures
        (slot_x(slot) == x && slot_y(slot) == y && slot_z(slot) == z) <==> slot_of(x, y, z, 0)
            <= slot < slot_of(x, y, z, 0) + 6,
        in_chunk(slot_x(slot), slot_y(slot), slot_z(slot)),
        0 <= slot_face(slot) < 6,
{
    let voxel = slot / 6;
    assert(slot_x(slot) == (voxel / 10) % 10);
    assert(slot_z(slot) == voxel % 10);
    assert(slot_y(slot) == voxel / 100);
    assert(slot_of(x, y, z, 0) == 6 * ((y * 10 + x) * 10 + z));
}

/// Where the voxel at `(x, y, z)` is the only one filled, the slots shown
/// are its own six.
proof fn lemma_lone_voxel_slot_visible(
    voxels: Seq<i32>,
    kinds: Seq<BlockTypeView>,
    x: int,
    y: int,
    z: int,
    slot: int,
)
    requires
        in_chunk(x, y, z),
        0 <= slot < slot_count(),
        solid_at(voxels, kinds, x, y, z),
        forall|i: int, j: int, k: int|
            (i != x || j != y || k != z) ==> !#[trigger] solid_at(voxels, kinds, i, j, k),
    ensures
        slot_visible(voxels, kinds, slot) <==> slot_of(x, y, z, 0) <= slot < slot_of(x, y, z, 0)
            + 6,
{
    lemma_slots_of_voxel(x, y, z, slot);
    let step = VoxelData::spec_face_check(slot_face(slot));
    if slot_x(slot) == x && slot_y(slot) == y && slot_z(slot) == z {
        assert(step.x != 0 || step.y != 0 || step.z != 0);
        assert(!solid_at(voxels, kinds, x + step.x, y + step.y, z + step.z));
    } else {
        assert(!solid_at(voxels, kinds, slot_x(slot), slot_y(slot), slot_z(slot)));
    }
}

/// The slots below `limit` that are shown when the voxel at `(x, y, z)` is
/// the only one filled: the voxel's own six, as far as they lie below the
/// limit.
proof fn lemma_lone_voxel_slots(
    voxels: Seq<i32>,
    kinds: Seq<BlockTypeView>,
    x: int,
    y: int,
    z: int,
    limit: nat,
)
    requires
        in_chunk(x, y, z),
        limit <= slot_count(),
        solid_at(voxels, kinds, x, y, z),
        forall|i: int, j: int, k: int|
            (i != x || j != y || k != z) ==> !#[trigger] solid_at(voxels, kinds, i, j, k),
    ensures
        ({
            let first = slot_of(x, y, z, 0);
            let own = if limit <= first {
                0
            } else if limit >= first + 6 {
                6
            } else {
                limit - first
            };
            visible_slots(voxels, kinds, limit) == Seq::new(own as nat, |i: int| first + i)
        }),
    decreases limit,
{
    let first = slot_of(x, y, z, 0);
    let own = if limit <= first {
        0
    } else if limit >= first + 6 {
        6
    } else {
        limit - first
    };
    if limit > 0 {
        lemma_lone_voxel_slots(voxels, kinds, x, y, z, (limit - 1) as nat);
        lemma_lone_voxel_slot_visible(voxels, kinds, x, y, z, limit - 1);
    }
    assert(visible_slots(voxels, kinds, limit) =~= Seq::new(own as nat, |i: int| first + i));
}

/// A filled voxel in a chunk that holds nothing else shows all six faces
/// and the chunk shows no other: the surface has 24 vertices and 12
/// triangles.
pub proof fn lemma_lone_voxel_shows_six_faces(
    voxels: Seq<i32>,
    kinds: Seq<BlockTypeView>,
    coord: ChunkCoord,
    x: int,
    y: int,
    z: int,
)
    requires
        in_chunk(x, y, z),
        solid_at(voxels, kinds, x, y, z),
        forall|i: int, j: int, k: int|
            (i != x || j != y || k != z) ==> !#[trigger] solid_at(voxels, kinds, i, j, k),
    ensures
        visible_slots(voxels, kinds, slot_count()) == Seq::new(
            6,
            |face: int| slot_of(x, y, z, face),
        ),
        surface(voxels, kinds, coord, slot_count()).vertices.len() == 24,
        surface(voxels, kinds, coord, slot_count()).uvs.len() == 24,
        surface(voxels, kinds, coord, slot_count()).triangles.len() == 3 * 12,
{
    lemma_lone_voxel_slots(voxels, kinds, x, y, z, slot_count());
    lemma_slot_parts(x, y, z, 0);
    lemma_slot_parts(x, y, z, 5);
    let first = slot_of(x, y, z, 0);
    assert(Seq::new(6, |i: int| first + i) =~= Seq::new(6, |face: int| slot_of(x, y, z, face)));
}

/// Whether the grid is filled but for the one cell `(ax, ay, az)`, which
/// lies inside the grid with all six neighbours in the grid.
pub open spec fn filled_but_one(
    voxels: Seq<i32>,
    kinds: Seq<BlockTypeView>,
    ax: int,
    ay: int,
    az: int,
) -> bool {
    &&& 0 < ax < VoxelData::CHUNK_WIDTH - 1
    &&& 0 < ay < VoxelData::CHUNK_HEIGHT - 1
    &&& 0 < az < VoxelData::CHUNK_WIDTH - 1
    &&& forall|x: int, y: int, z: int|
        in_chunk(x, y, z) ==> (#[trigger] solid_at(voxels, kinds, x, y, z) <==> !(x == ax && y == ay
            && z == az))
}

/// On how many sides the cell `(x, y, z)` lies at the edge of the grid.
pub open spec fn sides_on_edge(x: int, y: int, z: int) -> int {
    (if z == 0 { 1int } else { 0 }) + (if z == VoxelData::CHUNK_WIDTH - 1 { 1int } else { 0 }) + (if y
        == VoxelData::CHUNK_HEIGHT - 1 { 1int } else { 0 }) + (if y == 0 { 1int } else { 0 }) + (if x
        == 0 { 1int } else { 0 }) + (if x == VoxelData::CHUNK_WIDTH - 1 { 1int } else { 0 })
}

/// Whether the cell `(x, y, z)` shares a face with the cell `(ax, ay, az)`.
pub open spec fn beside(x: int, y: int, z: int, ax: int, ay: int, az: int) -> bool {
    ||| (x == ax && y == ay && (z == az - 1 || z == az + 1))
    ||| (x == ax && z == az && (y == ay - 1 || y == ay + 1))
    ||| (y == ay && z == az && (x == ax - 1 || x == ax + 1))
}

/// The place of the voxel at `(x, y, z)` in the order in which the mesh
/// walks the grid.
pub open spec fn voxel_number(x: int, y: int, z: int) -> int {
    (y * VoxelData::CHUNK_WIDTH + x) * VoxelData::CHUNK_WIDTH + z
}

/// How many sides at the edge of the grid the voxels before number `n`
/// have together.
pub open spec fn edge_sides_before(n: int) -> int {
    let y = n / 100;
    let x = (n / 10) % 10;
    let z = n % 10;
    let layers = 40 * y + (if y > 0 { 100int } else { 0 }) + (if y > 19 { 100int } else { 0 });
    let in_end_layer = y == 0 || y == 19;
    let rows = (if in_end_layer { 12 * x } else { 2 * x }) + (if x > 0 { 10int } else { 0 });
    let in_end_row = x == 0 || x == 9;
    let each = (if in_end_layer { 1int } else { 0 }) + (if in_end_row { 1int } else { 0 });
    let cells = (if each == 2 { 2 * z } else if each == 1 { z } else { 0 }) + (if z > 0 {
        1int
    } else {
        0
    });
    layers + rows + cells
}

/// How many of the six neighbours of the cell `(ax, ay, az)` come before
/// number `n`.
pub open spec fn neighbours_before(n: int, ax: int, ay: int, az: int) -> int {
    (if voxel_number(ax, ay, az - 1) < n { 1int } else { 0 }) + (if voxel_number(ax, ay, az + 1)
        < n { 1int } else { 0 }) + (if voxel_number(ax, ay + 1, az) < n { 1int } else { 0 }) + (
    if voxel_number(ax, ay - 1, az) < n { 1int } else { 0 }) + (if voxel_number(ax - 1, ay, az)
        < n { 1int } else { 0 }) + (if voxel_number(ax + 1, ay, az) < n { 1int } else { 0 })
}

/// In a grid that is filled but for one cell inside, a voxel shows its
/// sides at the edge of the grid and, beside the open cell, the side
/// towards it; the open cell shows nothing.
pub proof fn lemma_faces_of_voxel(
    voxels: Seq<i32>,
    kinds: Seq<BlockTypeView>,
    ax: int,
    ay: int,
    az: int,
    x: int,
    y: int,
    z: int,
)
    requires
        filled_but_one(voxels, kinds, ax, ay, az),
        in_chunk(x, y, z),
    ensures
        voxel_slots(voxels, kinds, x, y, z, 6).len() == sides_on_edge(x, y, z) + (if beside(
            x,
            y,
            z,
            ax,
            ay,
            az,
        ) { 1int } else { 0 }),
{
    reveal_with_fuel(voxel_slots, 7);
    assert(solid_at(voxels, kinds, x, y, z) <==> !(x == ax && y == ay && z == az));
    assert(solid_at(voxels, kinds, x, y, z - 1) <==> z > 0 && !(x == ax && y == ay && z - 1 == az));
    assert(solid_at(voxels, kinds, x, y, z + 1) <==> z < 9 && !(x == ax && y == ay && z + 1 == az));
    assert(solid_at(voxels, kinds, x, y + 1, z) <==> y < 19 && !(x == ax && y + 1 == ay && z == az));
    assert(solid_at(voxels, kinds, x, y - 1, z) <==> y > 0 && !(x == ax && y - 1 == ay && z == az));
    assert(solid_at(voxels, kinds, x - 1, y, z) <==> x > 0 && !(x - 1 == ax && y == ay && z == az));
    assert(solid_at(voxels, kinds, x + 1, y, z) <==> x < 9 && !(x + 1 == ax && y == ay && z == az));
    assert(face_visible(voxels, kinds, x, y, z, 0) == (solid_at(voxels, kinds, x, y, z)
        && !solid_at(voxels, kinds, x, y, z - 1)));
    assert(face_visible(voxels, kinds, x, y, z, 1) == (solid_at(voxels, kinds, x, y, z)
        && !solid_at(voxels, kinds, x, y, z + 1)));
    assert(face_visible(voxels, kinds, x, y, z, 2) == (solid_at(voxels, kinds, x, y, z)
        && !solid_at(voxels, kinds, x, y + 1, z)));
    assert(face_visible(voxels, kinds, x, y, z, 3) == (solid_at(voxels, kinds, x, y, z)
        && !solid_at(voxels, kinds, x, y - 1, z)));
    assert(face_visible(voxels, kinds, x, y, z, 4) == (solid_at(voxels, kinds, x, y, z)
        && !solid_at(voxels, kinds, x - 1, y, z)));
    assert(face_visible(voxels, kinds, x, y, z, 5) == (solid_at(voxels, kinds, x, y, z)
        && !solid_at(voxels, kinds, x + 1, y, z)));
}

/// The voxel with the number `n` adds its own sides at the edge of the
/// grid to those of the voxels before it.
proof fn lemma_edge_sides_step(x: int, y: int, z: int)
    requires
        in_chunk(x, y, z),
    ensures
        edge_sides_before(voxel_number(x, y, z) + 1) == edge_sides_before(voxel_number(x, y, z))
            + sides_on_edge(x, y, z),
{
    let n = voxel_number(x, y, z);
    assert(n == 100 * y + 10 * x + z);
    assert(n / 100 == y && (n / 10) % 10 == x && n % 10 == z);
    if z < 9 {
        assert((n + 1) / 100 == y && ((n + 1) / 10) % 10 == x && (n + 1) % 10 == z + 1);
    } else if x < 9 {
        assert((n + 1) / 100 == y && ((n + 1) / 10) % 10 == x + 1 && (n + 1) % 10 == 0);
    } else {
        assert((n + 1) / 100 == y + 1 && ((n + 1) / 10) % 10 == 0 && (n + 1) % 10 == 0);
    }
}

/// The voxel with the number `n` adds one to the neighbours of the open
/// cell that came before it if it is one of them.
proof fn lemma_neighbours_step(ax: int, ay: int, az: int, x: int, y: int, z: int)
    requires
        in_chunk(x, y, z),
        0 < ax < VoxelData::CHUNK_WIDTH - 1,
        0 < ay < VoxelData::CHUNK_HEIGHT - 1,
        0 < az < VoxelData::CHUNK_WIDTH - 1,
    ensures
        neighbours_before(voxel_number(x, y, z) + 1, ax, ay, az) == neighbours_before(
            voxel_number(x, y, z),
            ax,
            ay,
            az,
        ) + (if beside(x, y, z, ax, ay, az) { 1int } else { 0 }),
{
    let n = voxel_number(x, y, z);
    assert(n == 100 * y + 10 * x + z);
    assert(voxel_number(ax, ay, az - 1) == 100 * ay + 10 * ax + az - 1);
    assert(voxel_number(ax, ay, az + 1) == 100 * ay + 10 * ax + az + 1);
    assert(voxel_number(ax, ay + 1, az) == 100 * ay + 100 + 10 * ax + az);
    assert(voxel_number(ax, ay - 1, az) == 100 * ay - 100 + 10 * ax + az);
    assert(voxel_number(ax - 1, ay, az) == 100 * ay + 10 * ax - 10 + az);
    assert(voxel_number(ax + 1, ay, az) == 100 * ay + 10 * ax + 10 + az);
    assert(n == voxel_number(ax, ay, az - 1) <==> (x == ax && y == ay && z == az - 1));
    assert(n == voxel_number(ax, ay, az + 1) <==> (x == ax && y == ay && z == az + 1));
    assert(n == voxel_number(ax, ay + 1, az) <==> (x == ax && y == ay + 1 && z == az));
    assert(n == voxel_number(ax, ay - 1, az) <==> (x == ax && y == ay - 1 && z == az));
    assert(n == voxel_number(ax - 1, ay, az) <==> (x == ax - 1 && y == ay && z == az));
    assert(n == voxel_number(ax + 1, ay, az) <==> (x == ax + 1 && y == ay && z == az));
}

/// In a grid that is filled but for one cell inside, the voxels before
/// number `n` show their sides at the edge of the grid and the sides
/// towards the open cell.
pub proof fn lemma_faces_before(
    voxels: Seq<i32>,
    kinds: Seq<BlockTypeView>,
    ax: int,
    ay: int,
    az: int,
    n: nat,
)
    requires
        filled_but_one(voxels, kinds, ax, ay, az),
        n <= VoxelData::CHUNK_VOLUME,
    ensures
        visible_slots(voxels, kinds, 6 * n).len() == edge_sides_before(n as int)
            + neighbours_before(n as int, ax, ay, az),
    decreases n,
{
    if n > 0 {
        let m = n - 1;
        let y = m / 100;
        let x = (m / 10) % 10;
        let z = m % 10;
        lemma_faces_before(voxels, kinds, ax, ay, az, m as nat);
        assert(in_chunk(x, y, z));
        assert(voxel_number(x, y, z) == m);
        assert(slot_of(x, y, z, 0) == 6 * m);
        lemma_voxel_slots_follow(voxels, kinds, x, y, z, 6);
        lemma_faces_of_voxel(voxels, kinds, ax, ay, az, x, y, z);
        lemma_edge_sides_step(x, y, z);
        lemma_neighbours_step(ax, ay, az, x, y, z);
    }
}

/// A chunk that is filled but for one cell inside shows its shell and the
/// six sides around the open cell, and nothing else: 1006 faces. No face
/// belongs to a voxel whose six neighbours are all filled.
pub proof fn lemma_filled_but_one_shows_shell_and_six(
    voxels: Seq<i32>,
    kinds: Seq<BlockTypeView>,
    coord: ChunkCoord,
    ax: int,
    ay: int,
    az: int,
)
    requires
        filled_but_one(voxels, kinds, ax, ay, az),
    ensures
        visible_slots(voxels, kinds, slot_count()).len() == 1006,
        surface(voxels, kinds, coord, slot_count()).vertices.len() == 4 * 1006,
        surface(voxels, kinds, coord, slot_count()).triangles.len() == 6 * 1006,
        forall|i: int|
            0 <= i < 1006 ==> {
                let slot = #[trigger] visible_slots(voxels, kinds, slot_count())[i];
                let step = VoxelData::spec_face_check(slot_face(slot));
                let x = slot_x(slot) + step.x;
                let y = slot_y(slot) + step.y;
                let z = slot_z(slot) + step.z;
                !in_chunk(x, y, z) || (x == ax && y == ay && z == az)
            },
{
    lemma_faces_before(voxels, kinds, ax, ay, az, VoxelData::CHUNK_VOLUME as nat);
    lemma_visible_slots_are_visible(voxels, kinds, slot_count());
    lemma_visible_slots_bounded(voxels, kinds, slot_count());
    assert forall|i: int| 0 <= i < 1006 implies {
        let slot = #[trigger] visible_slots(voxels, kinds, slot_count())[i];
        let step = VoxelData::spec_face_check(slot_face(slot));
        let x = slot_x(slot) + step.x;
        let y = slot_y(slot) + step.y;
        let z = slot_z(slot) + step.z;
        !in_chunk(x, y, z) || (x == ax && y == ay && z == az)
    } by {
        let slot = visible_slots(voxels, kinds, slot_count())[i];
        let step = VoxelData::spec_face_check(slot_face(slot));
        assert(slot_visible(voxels, kinds, slot));
        let x = slot_x(slot) + step.x;
        let y = slot_y(slot) + step.y;
        let z = slot_z(slot) + step.z;
        if in_chunk(x, y, z) {
            assert(!solid_at(voxels, kinds, x, y, z));
        }
    }
}

/// The indices of `faces` faces of which the first begins at the vertex
/// `first`: for each face the triangles `(0, 1, 2)` and `(2, 1, 3)` of its
/// own four vertices.
pub open spec fn mesh_triangles_from(first: int, faces: nat) -> Seq<u32> {
    Seq::new(6 * faces, |i: int| face_indices(first + 4 * (i / 6))[i % 6])
}

/// The mesh `mesh` with the faces in `slots` appended: their vertices and
/// texture coordinates after those that are there, and indices that name
/// the new vertices.
pub open spec fn extended(
    mesh: MeshView,
    voxels: Seq<i32>,
    kinds: Seq<BlockTypeView>,
    coord: ChunkCoord,
    slots: Seq<int>,
) -> MeshView {
    MeshView {
        vertices: mesh.vertices + mesh_vertices(coord, slots),
        uvs: mesh.uvs + mesh_uvs(voxels, kinds, slots),
        triangles: mesh.triangles + mesh_triangles_from(mesh.vertices.len() as int, slots.len()),
    }
}

/// The slots of the faces that the voxel at `(x, y, z)` shows among its
/// first `faces` faces, in the order of the faces. A voxel that is not
/// filled, and a position outside the grid, shows none.
pub open spec fn voxel_slots(
    voxels: Seq<i32>,
    kinds: Seq<BlockTypeView>,
    x: int,
    y: int,
    z: int,
    faces: nat,
) -> Seq<int>
    decreases faces,
{
    if faces == 0 {
        Seq::empty()
    } else {
        let before = voxel_slots(voxels, kinds, x, y, z, (faces - 1) as nat);
        if face_visible(voxels, kinds, x, y, z, faces - 1) {
            before.push(slot_of(x, y, z, faces - 1))
        } else {
            before
        }
    }
}

/// A voxel shows at most as many faces as are looked at, and none where it
/// is not filled: an air cell and a position outside the grid add nothing
/// to a mesh.
pub proof fn lemma_voxel_slots_bounded(
    voxels: Seq<i32>,
    kinds: Seq<BlockTypeView>,
    x: int,
    y: int,
    z: int,
    faces: nat,
)
    ensures
        voxel_slots(voxels, kinds, x, y, z, faces).len() <= faces,
        !solid_at(voxels, kinds, x, y, z) ==> voxel_slots(voxels, kinds, x, y, z, faces)
            == Seq::<int>::empty(),
    decreases faces,
{
    if faces > 0 {
        lemma_voxel_slots_bounded(voxels, kinds, x, y, z, (faces - 1) as nat);
    }
}

/// The faces shown by the voxels before the voxel at `(x, y, z)`, followed
/// by the faces that this voxel shows, are the faces shown up to and with
/// this voxel.
pub proof fn lemma_voxel_slots_follow(
    voxels: Seq<i32>,
    kinds: Seq<BlockTypeView>,
    x: int,
    y: int,
    z: int,
    faces: nat,
)
    requires
        in_chunk(x, y, z),
        faces <= 6,
    ensures
        visible_slots(voxels, kinds, (slot_of(x, y, z, 0) + faces) as nat) == visible_slots(
            voxels,
            kinds,
            slot_of(x, y, z, 0) as nat,
        ) + voxel_slots(voxels, kinds, x, y, z, faces),
    decreases faces,
{
    let first = slot_of(x, y, z, 0);
    lemma_slot_parts(x, y, z, 0);
    let before = visible_slots(voxels, kinds, first as nat);
    if faces == 0 {
        assert(before + Seq::<int>::empty() =~= before);
    } else {
        let face = faces - 1;
        lemma_voxel_slots_follow(voxels, kinds, x, y, z, face as nat);
        lemma_slot_parts(x, y, z, face);
        assert(first + face == slot_of(x, y, z, face));
        let own = voxel_slots(voxels, kinds, x, y, z, face as nat);
        if face_visible(voxels, kinds, x, y, z, face) {
            assert((before + own).push(first + face) =~= before + own.push(first + face));
        }
    }
}

/// A mesh with no faces appended is the mesh itself.
pub proof fn lemma_extended_by_none(
    mesh: MeshView,
    voxels: Seq<i32>,
    kinds: Seq<BlockTypeView>,
    coord: ChunkCoord,
)
    ensures
        extended(mesh, voxels, kinds, coord, Seq::empty()) == mesh,
{
    let same = extended(mesh, voxels, kinds, coord, Seq::empty());
    assert(same.vertices =~= mesh.vertices);
    assert(same.uvs =~= mesh.uvs);
    assert(same.triangles =~= mesh.triangles);
}

/// Appending faces keeps what was there and keeps the shape of the mesh:
/// the old buffers begin the new ones, every new vertex has a texture
/// coordinate, and the new indices come in whole triangles.
pub proof fn lemma_extended_shape(
    mesh: MeshView,
    voxels: Seq<i32>,
    kinds: Seq<BlockTypeView>,
    coord: ChunkCoord,
    slots: Seq<int>,
)
    ensures
        ({
            let after = extended(mesh, voxels, kinds, coord, slots);
            &&& mesh.vertices.is_prefix_of(after.vertices)
            &&& mesh.uvs.is_prefix_of(after.uvs)
            &&& mesh.triangles.is_prefix_of(after.triangles)
            &&& after.vertices.len() == mesh.vertices.len() + 4 * slots.len()
            &&& after.uvs.len() == mesh.uvs.len() + 4 * slots.len()
            &&& after.triangles.len() == mesh.triangles.len() + 6 * slots.len()
            &&& mesh.uvs.len() == mesh.vertices.len() ==> after.uvs.len() == after.vertices.len()
            &&& mesh.triangles.len() % 3 == 0 ==> after.triangles.len() % 3 == 0
        }),
{
    let after = extended(mesh, voxels, kinds, coord, slots);
    assert(after.vertices.subrange(0, mesh.vertices.len() as int) =~= mesh.vertices);
    assert(after.uvs.subrange(0, mesh.uvs.len() as int) =~= mesh.uvs);
    assert(after.triangles.subrange(0, mesh.triangles.len() as int) =~= mesh.triangles);
}

/// Appending some faces and then one more is appending them all at once.
pub proof fn lemma_extended_push(
    mesh: MeshView,
    voxels: Seq<i32>,
    kinds: Seq<BlockTypeView>,
    coord: ChunkCoord,
    slots: Seq<int>,
    slot: int,
)
    ensures
        extended(extended(mesh, voxels, kinds, coord, slots), voxels, kinds, coord, seq![slot])
            == extended(mesh, voxels, kinds, coord, slots.push(slot)),
{
    let count = slots.len() as int;
    let first = mesh.vertices.len() as int;
    let longer = slots.push(slot);
    let middle = extended(mesh, voxels, kinds, coord, slots);
    let stepwise = extended(middle, voxels, kinds, coord, seq![slot]);
    let at_once = extended(mesh, voxels, kinds, coord, longer);
    assert(middle.vertices.len() == first + 4 * count);
    assert forall|i: int| 0 <= i < at_once.vertices.len() implies stepwise.vertices[i]
        == at_once.vertices[i] by {
        if i >= first {
            let j = i - first;
            if j < 4 * count {
                assert(longer[j / 4] == slots[j / 4]);
                assert(mesh_vertices(coord, slots)[j] == slot_vertex(coord, slots[j / 4], j % 4));
            } else {
                let k = j - 4 * count;
                assert(j / 4 == count && j % 4 == k);
                assert(k / 4 == 0 && k % 4 == k);
                assert(mesh_vertices(coord, seq![slot])[k] == slot_vertex(coord, seq![slot][0], k));
            }
        }
    }
    assert(stepwise.vertices =~= at_once.vertices);
    assert forall|i: int| 0 <= i < at_once.uvs.len() implies stepwise.uvs[i] == at_once.uvs[i] by {
        let base = mesh.uvs.len() as int;
        if i >= base {
            let j = i - base;
            if j < 4 * count {
                assert(longer[j / 4] == slots[j / 4]);
                assert(mesh_uvs(voxels, kinds, slots)[j] == face_uvs(
                    slot_texture(voxels, kinds, slots[j / 4]),
                )[j % 4]);
            } else {
                let k = j - 4 * count;
                assert(j / 4 == count && j % 4 == k);
                assert(k / 4 == 0 && k % 4 == k);
                assert(mesh_uvs(voxels, kinds, seq![slot])[k] == face_uvs(
                    slot_texture(voxels, kinds, seq![slot][0]),
                )[k]);
            }
        }
    }
    assert(stepwise.uvs =~= at_once.uvs);
    assert forall|i: int| 0 <= i < at_once.triangles.len() implies stepwise.triangles[i]
        == at_once.triangles[i] by {
        let base = mesh.triangles.len() as int;
        if i >= base {
            let j = i - base;
            if j < 6 * count {
                assert(mesh_triangles_from(first, count as nat)[j] == face_indices(
                    first + 4 * (j / 6),
                )[j % 6]);
            } else {
                let k = j - 6 * count;
                assert(j / 6 == count && j % 6 == k);
                assert(k / 6 == 0 && k % 6 == k);
                assert(mesh_triangles_from(first + 4 * count, 1)[k] == face_indices(
                    first + 4 * count + 4 * (k / 6),
                )[k % 6]);
            }
        }
    }
    assert(stepwise.triangles =~= at_once.triangles);
}

/// The mesh of some faces with more faces appended is the mesh of them
/// all.
pub proof fn lemma_extended_mesh_of(
    voxels: Seq<i32>,
    kinds: Seq<BlockTypeView>,
    coord: ChunkCoord,
    slots: Seq<int>,
    more: Seq<int>,
)
    ensures
        extended(mesh_of(voxels, kinds, coord, slots), voxels, kinds, coord, more) == mesh_of(
            voxels,
            kinds,
            coord,
            slots + more,
        ),
{
    let count = slots.len() as int;
    let all = slots + more;
    let stepwise = extended(mesh_of(voxels, kinds, coord, slots), voxels, kinds, coord, more);
    let at_once = mesh_of(voxels, kinds, coord, all);
    assert forall|i: int| 0 <= i < at_once.vertices.len() implies stepwise.vertices[i]
        == at_once.vertices[i] by {
        if i < 4 * count {
            assert(all[i / 4] == slots[i / 4]);
        } else {
            let j = i - 4 * count;
            assert(i / 4 == count + j / 4 && i % 4 == j % 4);
            assert(all[i / 4] == more[j / 4]);
            assert(mesh_vertices(coord, more)[j] == slot_vertex(coord, more[j / 4], j % 4));
        }
    }
    assert(stepwise.vertices =~= at_once.vertices);
    assert forall|i: int| 0 <= i < at_once.uvs.len() implies stepwise.uvs[i] == at_once.uvs[i] by {
        if i < 4 * count {
            assert(all[i / 4] == slots[i / 4]);
        } else {
            let j = i - 4 * count;
            assert(i / 4 == count + j / 4 && i % 4 == j % 4);
            assert(all[i / 4] == more[j / 4]);
            assert(mesh_uvs(voxels, kinds, more)[j] == face_uvs(
                slot_texture(voxels, kinds, more[j / 4]),
            )[j % 4]);
        }
    }
    assert(stepwise.uvs =~= at_once.uvs);
    assert forall|i: int| 0 <= i < at_once.triangles.len() implies stepwise.triangles[i]
        == at_once.triangles[i] by {
        if i >= 6 * count {
            let j = i - 6 * count;
            assert(i / 6 == count + j / 6 && i % 6 == j % 6);
            assert(mesh_triangles_from(4 * count, more.len())[j] == face_indices(
                4 * count + 4 * (j / 6),
            )[j % 6]);
        }
    }
    assert(stepwise.triangles =~= at_once.triangles);
}

} // verus!
