//! Chunk dimensions, the unit-cube tables that shape a voxel's faces, and
//! the buffers a chunk's surface is stored in.

use vstd::prelude::*;

verus! {

/// The fixed dimensions of the world and the tables of the unit cube.
pub struct VoxelData {}

/// An integer position in a voxel grid, or an offset between two of them.
#[derive(Clone, Copy, Debug, PartialEq, Eq, Structural)]
pub struct VoxelPos {
    pub x: i32,
    pub y: i32,
    pub z: i32,
}

/// A mesh vertex: an integer position in world space.
#[derive(Clone, Copy, Debug, PartialEq, Eq, Structural)]
pub struct Vertex {
    pub x: i64,
    pub y: i64,
    pub z: i64,
}

/// A texture coordinate, in thousandths of the atlas side: `(0, 0)` is the
/// lower left corner of the atlas and `(1000, 1000)` the upper right one.
#[derive(Clone, Copy, Debug, PartialEq, Eq, Structural)]
pub struct TexCoord {
    pub u: i32,
    pub v: i32,
}

impl VoxelData {
    /// Voxels along the vertical axis of a chunk.
    pub const CHUNK_HEIGHT: i32 = 20;

    /// Voxels along each horizontal axis of a chunk.
    pub const CHUNK_WIDTH: i32 = 10;

    /// Voxels in a chunk.
    pub const CHUNK_VOLUME: usize = 2000;

    /// Tiles along each side of the texture atlas.
    pub const TEXTURE_ATLAS_SIZE: i32 = 4;

    /// Side of the whole atlas in texture units.
    pub const TEXTURE_UNITS: i32 = 1000;

    /// Side of one atlas tile in texture units.
    pub const NORMALIZE_BLOCK_TEXTURE_SIZE: i32 = 250;

    /// Distance by which the corners of a face are moved into their tile,
    /// so that filtering does not pick up the neighbouring tile.
    pub const TEXTURE_INSET: i32 = 5;

    /// Chunks along each horizontal axis of the world.
    pub const WORLD_SIZE: i32 = 30;

    /// Radius, in chunks, of the window kept active around the viewer.
    pub const VIEW_DISTANCE_IN_CHUNKS: i32 = 10;

    /// Height added to every vertex when a chunk is placed in the world.
    pub const MESH_BASE_HEIGHT: i32 = -10;

    /// Corner `index` of the unit cube. Corners 0 to 3 lie in the plane
    /// `z = 0`, corners 4 to 7 in the plane `z = 1`, each run going round
    /// from the lower left.
    pub open spec fn spec_voxel_vert(index: int) -> VoxelPos {
        VoxelPos {
            x: if index == 1 || index == 2 || index == 5 || index == 6 {
                1i32
            } else {
                0i32
            },
            y: if index == 2 || index == 3 || index == 6 || index == 7 {
                1i32
            } else {
                0i32
            },
            z: if 4 <= index <= 7 {
                1i32
            } else {
                0i32
            },
        }
    }

    /// The cube corner at which corner `corner` of face `face` lies.
    pub open spec fn spec_voxel_tri(face: int, corner: int) -> int {
        if face == 0 {
            if corner == 0 { 0 } else if corner == 1 { 3 } else if corner == 2 { 1 } else { 2 }
        } else if face == 1 {
            if corner == 0 { 5 } else if corner == 1 { 6 } else if corner == 2 { 4 } else { 7 }
        } else if face == 2 {
            if corner == 0 { 3 } else if corner == 1 { 7 } else if corner == 2 { 2 } else { 6 }
        } else if face == 3 {
            if corner == 0 { 1 } else if corner == 1 { 5 } else if corner == 2 { 0 } else { 4 }
        } else if face == 4 {
            if corner == 0 { 4 } else if corner == 1 { 7 } else if corner == 2 { 0 } else { 3 }
        } else {
            if corner == 0 { 1 } else if corner == 1 { 2 } else if corner == 2 { 5 } else { 6 }
        }
    }

    /// The step from a voxel to its neighbour across face `face`.
    pub open spec fn spec_face_check(face: int) -> VoxelPos {
        VoxelPos {
            x: if face == 4 { -1i32 } else if face == 5 { 1i32 } else { 0i32 },
            y: if face == 2 { 1i32 } else if face == 3 { -1i32 } else { 0i32 },
            z: if face == 0 { -1i32 } else if face == 1 { 1i32 } else { 0i32 },
        }
    }

    /// Where corner `corner` of a face lies in its tile: `u` is 0 at the
    /// left edge and 1 at the right, `v` is 0 at the lower edge and 1 at the
    /// upper. The corners come upper left, lower left, upper right, lower
    /// right.
    pub open spec fn spec_voxel_uv(corner: int) -> TexCoord {
        TexCoord {
            u: if corner == 2 || corner == 3 { 1i32 } else { 0i32 },
            v: if corner == 0 || corner == 2 { 1i32 } else { 0i32 },
        }
    }

    /// Position `index` of the six indices of a face, relative to the
    /// face's first vertex: the triangles `(0, 1, 2)` and `(2, 1, 3)`.
    pub open spec fn spec_quad_index(index: int) -> int {
        if index == 0 {
            0
        } else if index == 1 || index == 4 {
            1
        } else if index == 2 || index == 3 {
            2
        } else {
            3
        }
    }

    pub fn voxel_vert(index: usize) -> (corner: VoxelPos)
        requires
            index < 8,
        ensures
            corner == Self::spec_voxel_vert(index as int),
    {
        let x: i32 = if index == 1 || index == 2 || index == 5 || index == 6 { 1 } else { 0 };
        let y: i32 = if index == 2 || index == 3 || index == 6 || index == 7 { 1 } else { 0 };
        let z: i32 = if index >= 4 { 1 } else { 0 };
        VoxelPos { x, y, z }
    }

    pub fn voxel_tri(face: usize, corner: usize) -> (index: usize)
        requires
            face < 6,
            corner < 4,
        ensures
            index == Self::spec_voxel_tri(face as int, corner as int),
            index < 8,
    {
        match face {
            0 => match corner { 0 => 0, 1 => 3, 2 => 1, _ => 2 },
            1 => match corner { 0 => 5, 1 => 6, 2 => 4, _ => 7 },
            2 => match corner { 0 => 3, 1 => 7, 2 => 2, _ => 6 },
            3 => match corner { 0 => 1, 1 => 5, 2 => 0, _ => 4 },
            4 => match corner { 0 => 4, 1 => 7, 2 => 0, _ => 3 },
            _ => match corner { 0 => 1, 1 => 2, 2 => 5, _ => 6 },
        }
    }

    pub fn face_check(face: usize) -> (step: VoxelPos)
        requires
            face < 6,
        ensures
            step == Self::spec_face_check(face as int),
    {
        match face {
            0 => VoxelPos { x: 0, y: 0, z: -1 },
            1 => VoxelPos { x: 0, y: 0, z: 1 },
            2 => VoxelPos { x: 0, y: 1, z: 0 },
            3 => VoxelPos { x: 0, y: -1, z: 0 },
            4 => VoxelPos { x: -1, y: 0, z: 0 },
            _ => VoxelPos { x: 1, y: 0, z: 0 },
        }
    }

    pub fn voxel_uv(corner: usize) -> (place: TexCoord)
        requires
            corner < 4,
        ensures
            place == Self::spec_voxel_uv(corner as int),
    {
        match corner {
            0 => TexCoord { u: 0, v: 1 },
            1 => TexCoord { u: 0, v: 0 },
            2 => TexCoord { u: 1, v: 1 },
            _ => TexCoord { u: 1, v: 0 },
        }
    }
}

/// The surface of a chunk: vertex positions, one texture coordinate per
/// vertex, and vertex indices in groups of three, one group per triangle.
pub struct MeshBuffers {
    pub vertices: Vec<Vertex>,
    pub uvs: Vec<TexCoord>,
    pub triangles: Vec<u32>,
}

/// The mathematical content of a [`MeshBuffers`].
pub struct MeshView {
    pub vertices: Seq<Vertex>,
    pub uvs: Seq<TexCoord>,
    pub triangles: Seq<u32>,
}

impl MeshView {
    /// Every vertex has a texture coordinate, the indices form whole
    /// triangles, and each index names a vertex.
    pub open spec fn well_formed(self) -> bool {
        &&& self.uvs.len() == self.vertices.len()
        &&& self.triangles.len() % 3 == 0
        &&& forall|i: int|
            0 <= i < self.triangles.len() ==> (#[trigger] self.triangles[i]) < self.vertices.len()
    }

    /// Whether the mesh holds nothing.
    pub open spec fn is_empty(self) -> bool {
        self.vertices.len() == 0 && self.uvs.len() == 0 && self.triangles.len() == 0
    }
}

impl View for MeshBuffers {
    type V = MeshView;

    open spec fn view(&self) -> MeshView {
        MeshView { vertices: self.vertices@, uvs: self.uvs@, triangles: self.triangles@ }
    }
}

impl MeshBuffers {
    /// A mesh without vertices.
    pub fn new() -> (mesh: MeshBuffers)
        ensures
            mesh@.is_empty(),
            mesh@.well_formed(),
    {
        MeshBuffers { vertices: Vec::new(), uvs: Vec::new(), triangles: Vec::new() }
    }

    /// Number of faces in a mesh built of quads.
    pub fn face_count(&self) -> (count: usize)
        ensures
            count == self@.vertices.len() / 4,
    {
        self.vertices.len() / 4
    }
}

/// The tile that is drawn for texture index `texture_id`: the index itself
/// where the atlas has such a tile, else the nearest tile that it has.
pub open spec fn atlas_tile(texture_id: int) -> int {
    let last = VoxelData::TEXTURE_ATLAS_SIZE * VoxelData::TEXTURE_ATLAS_SIZE - 1;
    if texture_id < 0 {
        0
    } else if texture_id > last {
        last
    } else {
        texture_id
    }
}

/// The texture coordinate of corner `corner` of a face that shows tile
/// `tile`. Tiles are counted row by row from the top of the atlas; each
/// corner lies `TEXTURE_INSET` inside its tile.
pub open spec fn tile_corner(tile: int, corner: int) -> TexCoord {
    let row = tile / (VoxelData::TEXTURE_ATLAS_SIZE as int);
    let column = tile % (VoxelData::TEXTURE_ATLAS_SIZE as int);
    let size = VoxelData::NORMALIZE_BLOCK_TEXTURE_SIZE;
    let left = column * size;
    let bottom = VoxelData::TEXTURE_UNITS - row * size - size;
    let place = VoxelData::spec_voxel_uv(corner);
    TexCoord {
        u: (if place.u == 1 {
            left + size - VoxelData::TEXTURE_INSET
        } else {
            left + VoxelData::TEXTURE_INSET
        }) as i32,
        v: (if place.v == 1 {
            bottom + size - VoxelData::TEXTURE_INSET
        } else {
            bottom + VoxelData::TEXTURE_INSET
        }) as i32,
    }
}

/// The four texture coordinates of a face that shows texture `texture_id`.
pub open spec fn face_uvs(texture_id: int) -> Seq<TexCoord> {
    Seq::new(4, |corner: int| tile_corner(atlas_tile(texture_id), corner))
}

/// The six indices of the face whose first vertex is `first`.
pub open spec fn face_indices(first: int) -> Seq<u32> {
    Seq::new(6, |i: int| (first + VoxelData::spec_quad_index(i)) as u32)
}

/// Every coordinate of a face lies inside the atlas, and inside the tile
/// that it shows.
pub proof fn lemma_tile_corner_inside_tile(texture_id: int, corner: int)
    requires
        0 <= corner < 4,
    ensures
        ({
            let tile = atlas_tile(texture_id);
            let at = tile_corner(tile, corner);
            let size = VoxelData::NORMALIZE_BLOCK_TEXTURE_SIZE as int;
            let side = VoxelData::TEXTURE_ATLAS_SIZE as int;
            let units = VoxelData::TEXTURE_UNITS as int;
            let column = tile % side;
            let row = tile / side;
            &&& 0 <= tile < side * side
            &&& column * size < at.u < (column + 1) * size
            &&& units - (row + 1) * size < at.v < units - row * size
            &&& 0 < at.u < units
            &&& 0 < at.v < units
        }),
{
}

impl MeshBuffers {
    /// Appends the four texture coordinates of a face that shows texture
    /// `texture_id`. An index for which the atlas has no tile is moved to
    /// the nearest tile.
    pub fn add_texture(&mut self, texture_id: i32)
        ensures
            final(self)@.uvs == old(self)@.uvs + face_uvs(texture_id as int),
            final(self)@.vertices == old(self)@.vertices,
            final(self)@.triangles == old(self)@.triangles,
    {
        let last: i32 = VoxelData::TEXTURE_ATLAS_SIZE * VoxelData::TEXTURE_ATLAS_SIZE - 1;
        let tile: i32 = if texture_id < 0 {
            0
        } else if texture_id > last {
            last
        } else {
            texture_id
        };
        let row: i32 = tile / VoxelData::TEXTURE_ATLAS_SIZE;
        let column: i32 = tile % VoxelData::TEXTURE_ATLAS_SIZE;
        let size: i32 = VoxelData::NORMALIZE_BLOCK_TEXTURE_SIZE;
        let inset: i32 = VoxelData::TEXTURE_INSET;
        let x: i32 = column * size;
        let y: i32 = VoxelData::TEXTURE_UNITS - row * size - size;
        self.uvs.push(TexCoord { u: x + inset, v: y + size - inset });
        self.uvs.push(TexCoord { u: x + inset, v: y + inset });
        self.uvs.push(TexCoord { u: x + size - inset, v: y + size - inset });
        self.uvs.push(TexCoord { u: x + size - inset, v: y + inset });
        assert(self.uvs@ =~= old(self).uvs@ + face_uvs(texture_id as int));
    }
}

/// Corner `corner` of face `face` of the unit cube.
pub open spec fn face_corner(face: int, corner: int) -> VoxelPos {
    VoxelData::spec_voxel_vert(VoxelData::spec_voxel_tri(face, corner))
}

/// The cross product of the edges from corner `a` to corners `b` and `c` of
/// face `face`: the direction in which the triangle `(a, b, c)` faces.
pub open spec fn triangle_normal(face: int, a: int, b: int, c: int) -> (int, int, int) {
    let p = face_corner(face, a);
    let q = face_corner(face, b);
    let r = face_corner(face, c);
    let (ux, uy, uz) = (q.x - p.x, q.y - p.y, q.z - p.z);
    let (vx, vy, vz) = (r.x - p.x, r.y - p.y, r.z - p.z);
    (uy * vz - uz * vy, uz * vx - ux * vz, ux * vy - uy * vx)
}

/// The products of a number with -1, 0 and 1.
proof fn lemma_unit_products(a: int, b: int)
    ensures
        a == 0 || b == 0 ==> a * b == 0,
        a == 1 ==> a * b == b,
        a == -1 ==> a * b == -b,
{
    assert(a == 0 || b == 0 ==> a * b == 0) by (nonlinear_arith);
    assert(a == 1 ==> a * b == b) by (nonlinear_arith);
    assert(a == -1 ==> a * b == -b) by (nonlinear_arith);
}

/// The products that make up the normal of the triangle `(a, b, c)`.
proof fn lemma_normal_products(face: int, a: int, b: int, c: int)
    requires
        0 <= face < 6,
        0 <= a < 4,
        0 <= b < 4,
        0 <= c < 4,
    ensures
        ({
            let p = face_corner(face, a);
            let q = face_corner(face, b);
            let r = face_corner(face, c);
            let (ux, uy, uz) = (q.x - p.x, q.y - p.y, q.z - p.z);
            let (vx, vy, vz) = (r.x - p.x, r.y - p.y, r.z - p.z);
            &&& (uy == 0 || vz == 0 ==> uy * vz == 0) && (uy == 1 ==> uy * vz == vz) && (uy == -1
                ==> uy * vz == -vz)
            &&& (uz == 0 || vy == 0 ==> uz * vy == 0) && (uz == 1 ==> uz * vy == vy) && (uz == -1
                ==> uz * vy == -vy)
            &&& (uz == 0 || vx == 0 ==> uz * vx == 0) && (uz == 1 ==> uz * vx == vx) && (uz == -1
                ==> uz * vx == -vx)
            &&& (ux == 0 || vz == 0 ==> ux * vz == 0) && (ux == 1 ==> ux * vz == vz) && (ux == -1
                ==> ux * vz == -vz)
            &&& (ux == 0 || vy == 0 ==> ux * vy == 0) && (ux == 1 ==> ux * vy == vy) && (ux == -1
                ==> ux * vy == -vy)
            &&& (uy == 0 || vx == 0 ==> uy * vx == 0) && (uy == 1 ==> uy * vx == vx) && (uy == -1
                ==> uy * vx == -vx)
        }),
{
    let p = face_corner(face, a);
    let q = face_corner(face, b);
    let r = face_corner(face, c);
    let (ux, uy, uz) = (q.x - p.x, q.y - p.y, q.z - p.z);
    let (vx, vy, vz) = (r.x - p.x, r.y - p.y, r.z - p.z);
    lemma_unit_products(uy, vz);
    lemma_unit_products(uz, vy);
    lemma_unit_products(uz, vx);
    lemma_unit_products(ux, vz);
    lemma_unit_products(ux, vy);
    lemma_unit_products(uy, vx);
}

/// Both triangles of every face wind so that they face out of the cube: the
/// normal of each is the step to the neighbour across that face.
pub proof fn lemma_faces_wind_outward(face: int)
    requires
        0 <= face < 6,
    ensures
        triangle_normal(face, 0, 1, 2) == (
            VoxelData::spec_face_check(face).x as int,
            VoxelData::spec_face_check(face).y as int,
            VoxelData::spec_face_check(face).z as int,
        ),
        triangle_normal(face, 2, 1, 3) == triangle_normal(face, 0, 1, 2),
{
    lemma_normal_products(face, 0, 1, 2);
    lemma_normal_products(face, 2, 1, 3);
}

/// Every corner of a face lies on the side of the cube that the face
/// closes: where the step to the neighbour is positive the coordinate is 1,
/// where it is negative the coordinate is 0.
pub proof fn lemma_face_corners_on_face(face: int, corner: int)
    requires
        0 <= face < 6,
        0 <= corner < 4,
    ensures
        VoxelData::spec_face_check(face).x == 1 ==> face_corner(face, corner).x == 1,
        VoxelData::spec_face_check(face).x == -1 ==> face_corner(face, corner).x == 0,
        VoxelData::spec_face_check(face).y == 1 ==> face_corner(face, corner).y == 1,
        VoxelData::spec_face_check(face).y == -1 ==> face_corner(face, corner).y == 0,
        VoxelData::spec_face_check(face).z == 1 ==> face_corner(face, corner).z == 1,
        VoxelData::spec_face_check(face).z == -1 ==> face_corner(face, corner).z == 0,
{
}

} // verus!
