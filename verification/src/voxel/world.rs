//! The world: every chunk made so far, and the window of chunks kept active
//! around the viewer.

use std::collections::HashMap;
use vstd::prelude::*;
use crate::noise::basic_perlin::NoiseField;
use crate::voxel::block::{standard_block_types, Block, BlockTypeView, EBlockType};
use crate::voxel::chunk::{generated_chunk, lemma_generated_chunk, Chunk, ChunkCoord, ChunkView};
use crate::voxel::mesh::{VoxelData, VoxelPos};

verus! {

broadcast use vstd::std_specs::hash::group_hash_axioms;

/// The key under which the chunk at `coord` is filed.
spec fn coord_key(coord: ChunkCoord) -> u64 {
    ((coord.x + 0x8000_0000) * 0x1_0000_0000 + (coord.y + 0x8000_0000)) as u64
}

/// Different chunks are filed under different keys.
proof fn lemma_coord_key_injective(a: ChunkCoord, b: ChunkCoord)
    requires
        coord_key(a) == coord_key(b),
    ensures
        a == b,
{
}

/// The chunk that holds the world position `pos`.
pub open spec fn chunk_coord_of(pos: VoxelPos) -> ChunkCoord {
    ChunkCoord {
        x: (pos.x / VoxelData::CHUNK_WIDTH) as i32,
        y: (pos.z / VoxelData::CHUNK_WIDTH) as i32,
    }
}

/// Whether the chunk at `coord` lies inside the bounds of the world.
pub open spec fn in_world(coord: ChunkCoord) -> bool {
    &&& 0 <= coord.x < VoxelData::WORLD_SIZE
    &&& 0 <= coord.y < VoxelData::WORLD_SIZE
}

/// Whether the chunk at `coord` lies in the window around the chunk at
/// `center`: no more than `VIEW_DISTANCE_IN_CHUNKS` chunks from it on
/// either axis.
pub open spec fn in_view(center: ChunkCoord, coord: ChunkCoord) -> bool {
    &&& center.x - VoxelData::VIEW_DISTANCE_IN_CHUNKS <= coord.x <= center.x
        + VoxelData::VIEW_DISTANCE_IN_CHUNKS
    &&& center.y - VoxelData::VIEW_DISTANCE_IN_CHUNKS <= coord.y <= center.y
        + VoxelData::VIEW_DISTANCE_IN_CHUNKS
}

/// Whether the chunk at `coord` belongs to the region that is generated
/// when the world starts: the square of `WORLD_SIZE` chunks around the
/// origin.
pub open spec fn in_start_region(coord: ChunkCoord) -> bool {
    &&& -(VoxelData::WORLD_SIZE / 2) <= coord.x < VoxelData::WORLD_SIZE / 2
    &&& -(VoxelData::WORLD_SIZE / 2) <= coord.y < VoxelData::WORLD_SIZE / 2
}

/// `value` held to the range from 0 to `WORLD_SIZE`.
pub open spec fn held(value: int) -> int {
    if value < 0 {
        0
    } else if value > VoxelData::WORLD_SIZE {
        VoxelData::WORLD_SIZE as int
    } else {
        value
    }
}

/// A rectangle of chunk coordinates: the columns from `first_x` up to, but
/// not including, `last_x`, and the rows from `first_y` up to, but not
/// including, `last_y`.
pub struct Region {
    pub first_x: int,
    pub last_x: int,
    pub first_y: int,
    pub last_y: int,
}

impl Region {
    /// Whether the chunk at `coord` lies in the region.
    pub open spec fn contains(self, coord: ChunkCoord) -> bool {
        &&& self.first_x <= coord.x < self.last_x
        &&& self.first_y <= coord.y < self.last_y
    }

    /// The coordinates of row `y` from the first column of the region up
    /// to, but not including, column `x`.
    pub open spec fn row(self, y: int, x: int) -> Seq<ChunkCoord> {
        Seq::new(
            (x - self.first_x) as nat,
            |i: int| ChunkCoord { x: (self.first_x + i) as i32, y: y as i32 },
        )
    }

    /// The coordinates of the rows before row `y`, row by row.
    pub open spec fn rows(self, y: int) -> Seq<ChunkCoord>
        decreases y - self.first_y,
    {
        if y <= self.first_y {
            Seq::empty()
        } else {
            self.rows(y - 1) + self.row(y - 1, self.last_x)
        }
    }

    /// The coordinates that come before column `x` of row `y` when the
    /// region is walked row by row.
    pub open spec fn walk_upto(self, y: int, x: int) -> Seq<ChunkCoord> {
        self.rows(y) + self.row(y, x)
    }

    /// The coordinates of the region, row by row.
    pub open spec fn walk(self) -> Seq<ChunkCoord> {
        self.rows(self.last_y)
    }

    /// Whether the chunk at `coord` comes before column `x` of row `y`
    /// when the region is walked row by row.
    pub open spec fn walked_before(self, coord: ChunkCoord, y: int, x: int) -> bool {
        &&& self.contains(coord)
        &&& (coord.y < y || (coord.y == y && coord.x < x))
    }
}

/// The part of the window around the chunk at `center` that lies in the
/// world.
pub open spec fn view_window(center: ChunkCoord) -> Region {
    Region {
        first_x: held(center.x - VoxelData::VIEW_DISTANCE_IN_CHUNKS),
        last_x: held(center.x + VoxelData::VIEW_DISTANCE_IN_CHUNKS + 1),
        first_y: held(center.y - VoxelData::VIEW_DISTANCE_IN_CHUNKS),
        last_y: held(center.y + VoxelData::VIEW_DISTANCE_IN_CHUNKS + 1),
    }
}

/// The region that is generated when the world starts.
pub open spec fn start_region() -> Region {
    Region {
        first_x: -(VoxelData::WORLD_SIZE / 2) as int,
        last_x: (VoxelData::WORLD_SIZE / 2) as int,
        first_y: -(VoxelData::WORLD_SIZE / 2) as int,
        last_y: (VoxelData::WORLD_SIZE / 2) as int,
    }
}

/// The coordinates of `coords` that are not in `have`, in their order.
pub open spec fn fresh(coords: Seq<ChunkCoord>, have: Set<ChunkCoord>) -> Seq<ChunkCoord>
    decreases coords.len(),
{
    if coords.len() == 0 {
        Seq::empty()
    } else {
        let rest = fresh(coords.drop_last(), have);
        if have.contains(coords.last()) {
            rest
        } else {
            rest.push(coords.last())
        }
    }
}

/// The window that lies in the world holds the chunks that are both in
/// view and in the world.
pub proof fn lemma_view_window(center: ChunkCoord, coord: ChunkCoord)
    ensures
        view_window(center).contains(coord) <==> in_view(center, coord) && in_world(coord),
        view_window(center).first_x <= view_window(center).last_x,
        view_window(center).first_y <= view_window(center).last_y,
{
}

/// The start region holds the chunks around the origin.
pub proof fn lemma_start_region(coord: ChunkCoord)
    ensures
        start_region().contains(coord) <==> in_start_region(coord),
{
}

/// How the world `after` comes from the world `before` when the region
/// `region` has been walked, row by row, up to column `x` of row `y`: the
/// chunks that came up exist, generated where there was none and made
/// active if `active` says so; nothing else has changed.
pub open spec fn filled_upto(
    before: WorldView,
    after: WorldView,
    region: Region,
    active: bool,
    y: int,
    x: int,
) -> bool {
    &&& after.noise == before.noise
    &&& after.published == before.published
    &&& after.kinds == before.kinds
    &&& after.order == before.order + fresh(region.walk_upto(y, x), before.chunks.dom())
    &&& forall|coord: ChunkCoord| #[trigger]
        after.chunks.dom().contains(coord) <==> before.chunks.dom().contains(coord)
            || region.walked_before(coord, y, x)
    &&& forall|coord: ChunkCoord| #[trigger]
        after.chunks.dom().contains(coord) ==> after.chunks[coord] == if before.chunks.dom().contains(
            coord,
        ) {
            if active && region.walked_before(coord, y, x) {
                ChunkView { active: true, ..before.chunks[coord] }
            } else {
                before.chunks[coord]
            }
        } else {
            generated_chunk(before.noise, before.kinds, coord, active)
        }
}

/// How the world `after` comes from the world `before` when the viewer
/// stands in the chunk at `center`: every chunk of the window around
/// `center` that lies in the world exists and is active, every other chunk
/// that existed is inactive, and nothing else has changed. The chunks that
/// are new come after the others, in the order of the window's rows.
pub open spec fn streamed(before: WorldView, after: WorldView, center: ChunkCoord) -> bool {
    &&& after.noise == before.noise
    &&& after.published == before.published
    &&& after.kinds == before.kinds
    &&& after.order == before.order + fresh(view_window(center).walk(), before.chunks.dom())
    &&& forall|coord: ChunkCoord| #[trigger]
        after.chunks.dom().contains(coord) <==> before.chunks.dom().contains(coord) || (in_view(
            center,
            coord,
        ) && in_world(coord))
    &&& forall|coord: ChunkCoord| #[trigger]
        after.chunks.dom().contains(coord) ==> after.chunks[coord] == if before.chunks.dom().contains(
            coord,
        ) {
            ChunkView { active: in_view(center, coord) && in_world(coord), ..before.chunks[coord] }
        } else {
            generated_chunk(before.noise, before.kinds, coord, true)
        }
}

/// How the world `after` comes from the world `before` when the start
/// region is generated: every chunk of the region exists, those that are
/// new are inactive, and the chunks that existed are unchanged. The chunks
/// that are new come after the others, in the order of the region's rows.
pub open spec fn grown(before: WorldView, after: WorldView) -> bool {
    &&& after.noise == before.noise
    &&& after.published == before.published
    &&& after.kinds == before.kinds
    &&& after.order == before.order + fresh(start_region().walk(), before.chunks.dom())
    &&& forall|coord: ChunkCoord| #[trigger]
        after.chunks.dom().contains(coord) <==> before.chunks.dom().contains(coord)
            || in_start_region(coord)
    &&& forall|coord: ChunkCoord| #[trigger]
        after.chunks.dom().contains(coord) ==> after.chunks[coord] == if before.chunks.dom().contains(
            coord,
        ) {
            before.chunks[coord]
        } else {
            generated_chunk(before.noise, before.kinds, coord, false)
        }
}

/// After the window has moved to the chunk at `center`, the active chunks
/// are exactly the chunks of the window around `center` that lie in the
/// world.
pub proof fn lemma_streamed_active_set(before: WorldView, after: WorldView, center: ChunkCoord)
    requires
        streamed(before, after, center),
    ensures
        after.active_coords() == Set::new(
            |coord: ChunkCoord| in_view(center, coord) && in_world(coord),
        ),
{
    let window = Set::new(|coord: ChunkCoord| in_view(center, coord) && in_world(coord));
    assert forall|coord: ChunkCoord| after.active_coords().contains(coord) <==> window.contains(
        coord,
    ) by {
        if after.chunks.dom().contains(coord) {
            if !before.chunks.dom().contains(coord) {
                lemma_generated_chunk(before.noise, before.kinds, coord, true);
            }
        }
    }
    assert(after.active_coords() =~= window);
}

/// Moving the window to where it already is changes nothing: the same
/// chunks exist, in the same order and with the same content, and the same
/// chunks are active.
pub proof fn lemma_streaming_idempotent(
    before: WorldView,
    once: WorldView,
    twice: WorldView,
    center: ChunkCoord,
)
    requires
        once.well_formed(),
        twice.well_formed(),
        streamed(before, once, center),
        streamed(once, twice, center),
    ensures
        twice.chunks == once.chunks,
        twice.order == once.order,
        twice.published == once.published,
        twice.active_coords() == once.active_coords(),
{
    lemma_streamed_active_set(before, once, center);
    lemma_streamed_active_set(once, twice, center);
    assert forall|coord: ChunkCoord| twice.chunks.dom().contains(coord) <==> once.chunks.dom().contains(
        coord,
    ) by {}
    assert forall|coord: ChunkCoord| #[trigger]
        twice.chunks.dom().contains(coord) implies twice.chunks[coord] == once.chunks[coord] by {
        assert(once.chunks.dom().contains(coord));
        assert(once.active_coords().contains(coord) == (in_view(center, coord) && in_world(
            coord,
        )));
    }
    assert(twice.chunks =~= once.chunks);
    let shared = twice.order.subrange(0, once.order.len() as int);
    assert(once.order =~= shared);
    if twice.order.len() > once.order.len() {
        let extra = twice.order[once.order.len() as int];
        assert(twice.order.contains(extra));
        assert(twice.chunks.dom().contains(extra));
        assert(once.chunks.dom().contains(extra));
        assert(once.order.contains(extra));
        let i = choose|i: int| 0 <= i < once.order.len() && once.order[i] == extra;
        assert(shared[i] == twice.order[i]);
        assert(twice.order[i] == extra);
    }
    assert(twice.order =~= once.order);
}

/// Every chunk of a well-formed world has a well-formed mesh: each index
/// names a vertex of the chunk, and the indices come three to a triangle.
pub proof fn lemma_world_meshes_valid(world: WorldView, coord: ChunkCoord)
    requires
        world.well_formed(),
        world.chunks.dom().contains(coord),
    ensures
        world.chunks[coord].coord == coord,
        world.chunks[coord].well_formed(),
        world.chunks[coord].mesh.well_formed(),
        world.chunks[coord].meshed_with(world.kinds),
{
    lemma_generated_chunk(world.noise, world.kinds, coord, world.chunks[coord].active);
}

/// The active chunks of a world are chunks of that world.
pub proof fn lemma_active_chunks_exist(world: WorldView)
    ensures
        world.active_coords().subset_of(world.chunks.dom()),
{
}

/// The chunk that holds a world position is the chunk from whose local
/// column that position was reached.
pub proof fn lemma_chunk_of_world_column(coord: ChunkCoord, pos: VoxelPos, x: int, z: int)
    requires
        0 <= x < VoxelData::CHUNK_WIDTH,
        0 <= z < VoxelData::CHUNK_WIDTH,
        pos.x == coord.x * VoxelData::CHUNK_WIDTH + x,
        pos.z == coord.y * VoxelData::CHUNK_WIDTH + z,
    ensures
        chunk_coord_of(pos) == coord,
{
}

/// The mathematical content of a [`World`].
pub struct WorldView {
    /// The coordinates of the chunks, in the order in which they were made.
    pub order: Seq<ChunkCoord>,
    /// The chunks by their coordinates.
    pub chunks: Map<ChunkCoord, ChunkView>,
    /// The noise field that shapes the terrain.
    pub noise: NoiseField,
    /// The block kinds, by identifier.
    pub kinds: Seq<BlockTypeView>,
    /// How many of the chunks, counted in the order in which they were
    /// made, have been handed out as new.
    pub published: nat,
}

impl WorldView {
    /// No coordinate has two chunks, every chunk is filed under its own
    /// coordinate, and every chunk is generated and meshed.
    pub open spec fn well_formed(self) -> bool {
        &&& self.published <= self.order.len()
        &&& self.order.no_duplicates()
        &&& forall|coord: ChunkCoord|
            self.chunks.dom().contains(coord) <==> self.order.contains(coord)
        &&& forall|coord: ChunkCoord| #[trigger]
            self.chunks.dom().contains(coord) ==> self.chunks[coord] == generated_chunk(
                self.noise,
                self.kinds,
                coord,
                self.chunks[coord].active,
            )
    }

    /// The coordinates of the chunks that are active.
    pub open spec fn active_coords(self) -> Set<ChunkCoord> {
        Set::new(|coord: ChunkCoord| self.chunks.dom().contains(coord) && self.chunks[coord].active)
    }
}

/// Whether the chunks `views`, kept in the order in which they were made,
/// and the index `index` from keys to places agree, and every chunk is
/// generated and meshed.
spec fn rep_well_formed(
    views: Seq<ChunkView>,
    index: Map<u64, usize>,
    noise: NoiseField,
    kinds: Seq<BlockTypeView>,
) -> bool {
    &&& forall|i: int|
        0 <= i < views.len() ==> {
            &&& index.contains_key(coord_key(#[trigger] views[i].coord))
            &&& index[coord_key(views[i].coord)] == i
        }
    &&& forall|key: u64| #[trigger]
        index.contains_key(key) ==> {
            &&& index[key] < views.len()
            &&& coord_key(views[index[key] as int].coord) == key
        }
    &&& forall|i: int|
        0 <= i < views.len() ==> #[trigger] views[i] == generated_chunk(
            noise,
            kinds,
            views[i].coord,
            views[i].active,
        )
}

/// What the chunks `views` and the index `index` show of the world.
spec fn rep_view(
    views: Seq<ChunkView>,
    index: Map<u64, usize>,
    noise: NoiseField,
    kinds: Seq<BlockTypeView>,
) -> WorldView {
    WorldView {
        order: Seq::new(views.len(), |i: int| views[i].coord),
        chunks: Map::new(
            |coord: ChunkCoord| index.contains_key(coord_key(coord)),
            |coord: ChunkCoord| views[index[coord_key(coord)] as int],
        ),
        noise,
        kinds,
        published: 0,
    }
}

/// What a well-formed world shows of itself is well formed too.
proof fn lemma_rep_view_well_formed(
    views: Seq<ChunkView>,
    index: Map<u64, usize>,
    noise: NoiseField,
    kinds: Seq<BlockTypeView>,
)
    requires
        rep_well_formed(views, index, noise, kinds),
    ensures
        rep_view(views, index, noise, kinds).well_formed(),
{
    let view = rep_view(views, index, noise, kinds);
    assert forall|i: int, j: int|
        0 <= i < view.order.len() && 0 <= j < view.order.len() && i != j implies view.order[i]
        != view.order[j] by {
        assert(index[coord_key(views[i].coord)] == i);
        assert(index[coord_key(views[j].coord)] == j);
    }
    assert forall|coord: ChunkCoord|
        view.chunks.dom().contains(coord) <==> view.order.contains(coord) by {
        if view.chunks.dom().contains(coord) {
            let i = index[coord_key(coord)] as int;
            lemma_coord_key_injective(views[i].coord, coord);
            assert(view.order[i] == coord);
        }
        if view.order.contains(coord) {
            let i = choose|i: int| 0 <= i < view.order.len() && view.order[i] == coord;
            assert(index.contains_key(coord_key(views[i].coord)));
        }
    }
    assert forall|coord: ChunkCoord| #[trigger]
        view.chunks.dom().contains(coord) implies view.chunks[coord] == generated_chunk(
        view.noise,
        view.kinds,
        coord,
        view.chunks[coord].active,
    ) by {
        let i = index[coord_key(coord)] as int;
        lemma_coord_key_injective(views[i].coord, coord);
    }
}

/// Showing or hiding the chunk kept at `place` changes that chunk's flag
/// and nothing else.
proof fn lemma_rep_set_active(
    views: Seq<ChunkView>,
    index: Map<u64, usize>,
    noise: NoiseField,
    kinds: Seq<BlockTypeView>,
    place: int,
    active: bool,
)
    requires
        rep_well_formed(views, index, noise, kinds),
        0 <= place < views.len(),
    ensures
        ({
            let coord = views[place].coord;
            let changed = views.update(place, ChunkView { active, ..views[place] });
            let before = rep_view(views, index, noise, kinds);
            let after = rep_view(changed, index, noise, kinds);
            &&& rep_well_formed(changed, index, noise, kinds)
            &&& after.order == before.order
            &&& after.chunks.dom() == before.chunks.dom()
            &&& before.chunks.dom().contains(coord)
            &&& after.chunks[coord] == (ChunkView { active, ..before.chunks[coord] })
            &&& forall|other: ChunkCoord|
                other != coord && before.chunks.dom().contains(other) ==> (
                #[trigger] after.chunks[other]) == before.chunks[other]
        }),
{
    let coord = views[place].coord;
    let changed = views.update(place, ChunkView { active, ..views[place] });
    let before = rep_view(views, index, noise, kinds);
    let after = rep_view(changed, index, noise, kinds);
    lemma_generated_chunk(noise, kinds, coord, views[place].active);
    assert forall|i: int| 0 <= i < changed.len() implies (#[trigger] changed[i]).coord
        == views[i].coord by {}
    assert forall|i: int| 0 <= i < changed.len() implies {
        &&& index.contains_key(coord_key(#[trigger] changed[i].coord))
        &&& index[coord_key(changed[i].coord)] == i
    } by {
        assert(index.contains_key(coord_key(views[i].coord)));
    }
    assert forall|i: int| 0 <= i < changed.len() implies #[trigger] changed[i] == generated_chunk(
        noise,
        kinds,
        changed[i].coord,
        changed[i].active,
    ) by {
        assert(views[i] == generated_chunk(noise, kinds, views[i].coord, views[i].active));
    }
    assert(after.order =~= before.order);
    assert(after.chunks.dom() =~= before.chunks.dom());
    assert(index.contains_key(coord_key(views[place].coord)));
    assert forall|other: ChunkCoord|
        other != coord && before.chunks.dom().contains(other) implies (
    #[trigger] after.chunks[other]) == before.chunks[other] by {
        let i = index[coord_key(other)] as int;
        if i == place {
            lemma_coord_key_injective(coord, other);
        }
    }
}

/// Filing a newly generated chunk under a coordinate that had none adds
/// that chunk and changes nothing else.
proof fn lemma_rep_push(
    views: Seq<ChunkView>,
    index: Map<u64, usize>,
    noise: NoiseField,
    kinds: Seq<BlockTypeView>,
    coord: ChunkCoord,
    active: bool,
)
    requires
        rep_well_formed(views, index, noise, kinds),
        !index.contains_key(coord_key(coord)),
        views.len() <= usize::MAX,
    ensures
        ({
            let chunk = generated_chunk(noise, kinds, coord, active);
            let grown = views.push(chunk);
            let filed = index.insert(coord_key(coord), views.len() as usize);
            let before = rep_view(views, index, noise, kinds);
            let after = rep_view(grown, filed, noise, kinds);
            &&& rep_well_formed(grown, filed, noise, kinds)
            &&& after.order == before.order.push(coord)
            &&& after.chunks.dom() == before.chunks.dom().insert(coord)
            &&& after.chunks[coord] == chunk
            &&& forall|other: ChunkCoord|
                other != coord && before.chunks.dom().contains(other) ==> (
                #[trigger] after.chunks[other]) == before.chunks[other]
        }),
{
    let chunk = generated_chunk(noise, kinds, coord, active);
    let grown = views.push(chunk);
    let key = coord_key(coord);
    let filed = index.insert(key, views.len() as usize);
    let before = rep_view(views, index, noise, kinds);
    let after = rep_view(grown, filed, noise, kinds);
    lemma_generated_chunk(noise, kinds, coord, active);
    assert forall|i: int| 0 <= i < grown.len() implies {
        &&& filed.contains_key(coord_key(#[trigger] grown[i].coord))
        &&& filed[coord_key(grown[i].coord)] == i
    } by {
        if i < views.len() {
            assert(grown[i] == views[i]);
            assert(index.contains_key(coord_key(views[i].coord)));
        }
    }
    assert forall|k: u64| #[trigger] filed.contains_key(k) implies {
        &&& filed[k] < grown.len()
        &&& coord_key(grown[filed[k] as int].coord) == k
    } by {
        if k != key {
            assert(index.contains_key(k));
        }
    }
    assert forall|i: int| 0 <= i < grown.len() implies #[trigger] grown[i] == generated_chunk(
        noise,
        kinds,
        grown[i].coord,
        grown[i].active,
    ) by {
        if i < views.len() {
            assert(views[i] == generated_chunk(noise, kinds, views[i].coord, views[i].active));
        }
    }
    assert(after.order =~= before.order.push(coord));
    assert forall|other: ChunkCoord|
        after.chunks.dom().contains(other) <==> before.chunks.dom().insert(coord).contains(
            other,
        ) by {
        if coord_key(other) == key {
            lemma_coord_key_injective(other, coord);
        }
    }
    assert(after.chunks.dom() =~= before.chunks.dom().insert(coord));
    assert forall|other: ChunkCoord|
        other != coord && before.chunks.dom().contains(other) implies (
    #[trigger] after.chunks[other]) == before.chunks[other] by {
        if coord_key(other) == key {
            lemma_coord_key_injective(other, coord);
        }
    }
}

/// Hiding every chunk changes the flags and nothing else.
proof fn lemma_rep_deactivated(
    views: Seq<ChunkView>,
    hidden: Seq<ChunkView>,
    index: Map<u64, usize>,
    noise: NoiseField,
    kinds: Seq<BlockTypeView>,
)
    requires
        rep_well_formed(views, index, noise, kinds),
        hidden.len() == views.len(),
        forall|i: int|
            0 <= i < views.len() ==> #[trigger] hidden[i] == (ChunkView {
                active: false,
                ..views[i]
            }),
    ensures
        ({
            let before = rep_view(views, index, noise, kinds);
            let after = rep_view(hidden, index, noise, kinds);
            &&& rep_well_formed(hidden, index, noise, kinds)
            &&& after.order == before.order
            &&& after.chunks.dom() == before.chunks.dom()
            &&& forall|coord: ChunkCoord|
                before.chunks.dom().contains(coord) ==> (#[trigger] after.chunks[coord]) == (
                ChunkView { active: false, ..before.chunks[coord] })
        }),
{
    let before = rep_view(views, index, noise, kinds);
    let after = rep_view(hidden, index, noise, kinds);
    assert forall|i: int| 0 <= i < hidden.len() implies {
        &&& index.contains_key(coord_key(#[trigger] hidden[i].coord))
        &&& index[coord_key(hidden[i].coord)] == i
    } by {
        assert(index.contains_key(coord_key(views[i].coord)));
    }
    assert forall|i: int| 0 <= i < hidden.len() implies #[trigger] hidden[i] == generated_chunk(
        noise,
        kinds,
        hidden[i].coord,
        hidden[i].active,
    ) by {
        assert(views[i] == generated_chunk(noise, kinds, views[i].coord, views[i].active));
        lemma_generated_chunk(noise, kinds, views[i].coord, views[i].active);
    }
    assert(after.order =~= before.order);
    assert(after.chunks.dom() =~= before.chunks.dom());
}

/// The world: the chunks made so far, each under its coordinate.
pub struct World {
    chunks: Vec<Chunk>,
    index: HashMap<u64, usize>,
    noise: NoiseField,
    registry: Block,
    published: usize,
}

impl View for World {
    type V = WorldView;

    closed spec fn view(&self) -> WorldView {
        WorldView {
            published: self.published as nat,
            ..rep_view(self.chunk_views(), self.index@, self.noise, self.registry@)
        }
    }
}

impl World {
    /// The chunks, in the order in which they were made.
    spec fn chunk_views(&self) -> Seq<ChunkView> {
        Seq::new(self.chunks@.len(), |i: int| self.chunks@[i]@)
    }

    /// The chunks and the index agree, and every chunk is generated and
    /// meshed.
    pub closed spec fn well_formed(&self) -> bool {
        &&& self.published <= self.chunks@.len()
        &&& rep_well_formed(self.chunk_views(), self.index@, self.noise, self.registry@)
    }

    /// What a well-formed world shows of itself is well formed too.
    pub proof fn lemma_view_well_formed(&self)
        requires
            self.well_formed(),
        ensures
            self@.well_formed(),
    {
        lemma_rep_view_well_formed(self.chunk_views(), self.index@, self.noise, self.registry@);
    }

    /// The key under which the chunk at `coord` is filed.
    fn key_of(coord: ChunkCoord) -> (key: u64)
        ensures
            key == coord_key(coord),
    {
        let x: u64 = (coord.x as i64 + 0x8000_0000) as u64;
        let y: u64 = (coord.y as i64 + 0x8000_0000) as u64;
        x * 0x1_0000_0000 + y
    }

    /// Where the chunk at `coord` is kept, if there is one.
    fn find(&self, coord: ChunkCoord) -> (place: Option<usize>)
        requires
            self.well_formed(),
        ensures
            place.is_some() == self@.chunks.dom().contains(coord),
            place.is_some() ==> {
                &&& place.unwrap() < self.chunks@.len()
                &&& self.chunks@[place.unwrap() as int]@ == self@.chunks[coord]
                &&& self.chunks@[place.unwrap() as int]@.coord == coord
            },
    {
        let key = Self::key_of(coord);
        match self.index.get(&key) {
            Some(place) => {
                proof {
                    lemma_coord_key_injective(self.chunk_views()[*place as int].coord, coord);
                }
                Some(*place)
            },
            None => None,
        }
    }

    /// Shows or hides the chunk kept at `place`, which is the chunk at
    /// `coord`.
    fn set_chunk_active(&mut self, place: usize, coord: ChunkCoord, active: bool)
        requires
            old(self).well_formed(),
            place < old(self).chunks@.len(),
            old(self).chunks@[place as int]@.coord == coord,
        ensures
            final(self).well_formed(),
            final(self)@.noise == old(self)@.noise,
            final(self)@.published == old(self)@.published,
            final(self)@.kinds == old(self)@.kinds,
            final(self)@.order == old(self)@.order,
            final(self)@.chunks.dom() == old(self)@.chunks.dom(),
            final(self)@.chunks.dom().contains(coord),
            forall|other: ChunkCoord|
                other != coord && old(self)@.chunks.dom().contains(other) ==> (
                #[trigger] final(self)@.chunks[other]) == old(self)@.chunks[other],
            final(self)@.chunks[coord] == (ChunkView { active, ..old(self)@.chunks[coord] }),
    {
        self.chunks[place].set_active(active);
        proof {
            let views = old(self).chunk_views();
            assert(self.chunk_views() =~= views.update(
                place as int,
                ChunkView { active, ..views[place as int] },
            ));
            lemma_rep_set_active(
                views,
                self.index@,
                self.noise,
                self.registry@,
                place as int,
                active,
            );
        }
    }

    /// Generates the chunk at `coord`, where the world has none yet, and
    /// shows it if `active` says so.
    fn create_chunk(&mut self, coord: ChunkCoord, active: bool)
        requires
            old(self).well_formed(),
            !old(self)@.chunks.dom().contains(coord),
        ensures
            final(self).well_formed(),
            final(self)@.noise == old(self)@.noise,
            final(self)@.published == old(self)@.published,
            final(self)@.kinds == old(self)@.kinds,
            final(self)@.order == old(self)@.order.push(coord),
            final(self)@.chunks.dom() == old(self)@.chunks.dom().insert(coord),
            forall|other: ChunkCoord|
                other != coord && old(self)@.chunks.dom().contains(other) ==> (
                #[trigger] final(self)@.chunks[other]) == old(self)@.chunks[other],
            final(self)@.chunks[coord] == generated_chunk(
                old(self)@.noise,
                old(self)@.kinds,
                coord,
                active,
            ),
    {
        let mut chunk = Chunk::new(coord, &self.noise, &self.registry);
        proof {
            lemma_generated_chunk(self.noise, self.registry@, coord, false);
        }
        chunk.set_active(active);
        let key = Self::key_of(coord);
        let place = self.chunks.len();
        self.index.insert(key, place);
        self.chunks.push(chunk);
        proof {
            let views = old(self).chunk_views();
            assert(self.chunk_views() =~= views.push(
                generated_chunk(self.noise, self.registry@, coord, active),
            ));
            lemma_rep_push(views, old(self).index@, self.noise, self.registry@, coord, active);
        }
    }

    /// Hides every chunk.
    fn deactivate_all(&mut self)
        requires
            old(self).well_formed(),
        ensures
            final(self).well_formed(),
            final(self)@.noise == old(self)@.noise,
            final(self)@.published == old(self)@.published,
            final(self)@.kinds == old(self)@.kinds,
            final(self)@.order == old(self)@.order,
            final(self)@.chunks.dom() == old(self)@.chunks.dom(),
            forall|coord: ChunkCoord|
                old(self)@.chunks.dom().contains(coord) ==> (
                #[trigger] final(self)@.chunks[coord]) == (ChunkView {
                    active: false,
                    ..old(self)@.chunks[coord]
                }),
    {
        let count = self.chunks.len();
        let mut i: usize = 0;
        while i < count
            invariant
                i <= count,
                count == self.chunks@.len(),
                count == old(self).chunks@.len(),
                self.index@ == old(self).index@,
                self.noise == old(self).noise,
                self.published == old(self).published,
                self.registry@ == old(self).registry@,
                forall|j: int|
                    0 <= j < i ==> (#[trigger] self.chunks@[j])@ == (ChunkView {
                        active: false,
                        ..old(self).chunks@[j]@
                    }),
                forall|j: int| i <= j < count ==> (#[trigger] self.chunks@[j]) == old(self).chunks@[j],
            decreases count - i,
        {
            self.chunks[i].set_active(false);
            i += 1;
        }
        proof {
            lemma_rep_deactivated(
                old(self).chunk_views(),
                self.chunk_views(),
                self.index@,
                self.noise,
                self.registry@,
            );
        }
    }

    /// A world without chunks, with the terrain's noise field and the
    /// standard block kinds.
    pub fn new() -> (world: World)
        ensures
            world.well_formed(),
            world@.well_formed(),
            world@.order.len() == 0,
            world@.published == 0,
            world@.chunks.dom() == Set::<ChunkCoord>::empty(),
            world@.noise.is_terrain(),
            world@.kinds == standard_block_types(),
    {
        let world = World {
            chunks: Vec::new(),
            index: HashMap::new(),
            noise: NoiseField::terrain(),
            registry: Block::new(),
            published: 0,
        };
        assert(world@.chunks.dom() =~= Set::<ChunkCoord>::empty());
        proof {
            world.lemma_view_well_formed();
        }
        world
    }

    /// A world without chunks, with the given noise field and block kinds.
    pub fn with_settings(noise: NoiseField, registry: Block) -> (world: World)
        ensures
            world.well_formed(),
            world@.well_formed(),
            world@.order.len() == 0,
            world@.published == 0,
            world@.chunks.dom() == Set::<ChunkCoord>::empty(),
            world@.noise == noise,
            world@.kinds == registry@,
    {
        let world = World { chunks: Vec::new(), index: HashMap::new(), noise, registry, published: 0 };
        assert(world@.chunks.dom() =~= Set::<ChunkCoord>::empty());
        proof {
            world.lemma_view_well_formed();
        }
        world
    }

    /// The chunk that holds the world position `pos`.
    pub fn get_chunkcoord_from_pos(pos: VoxelPos) -> (coord: ChunkCoord)
        ensures
            coord == chunk_coord_of(pos),
    {
        let x: i32 = if pos.x >= 0 {
            pos.x / VoxelData::CHUNK_WIDTH
        } else {
            -((-(pos.x + 1)) / VoxelData::CHUNK_WIDTH) - 1
        };
        let y: i32 = if pos.z >= 0 {
            pos.z / VoxelData::CHUNK_WIDTH
        } else {
            -((-(pos.z + 1)) / VoxelData::CHUNK_WIDTH) - 1
        };
        ChunkCoord { x, y }
    }

    /// Whether the chunk at `coord` lies inside the bounds of the world.
    pub fn is_chunk_in_world(&self, coord: &ChunkCoord) -> (inside: bool)
        ensures
            inside == in_world(*coord),
    {
        if coord.x >= 0 && coord.x < VoxelData::WORLD_SIZE && coord.y >= 0 && coord.y
            < VoxelData::WORLD_SIZE {
            return true;
        }
        return false;
    }

    /// Whether the world position `pos` lies strictly inside the world.
    pub fn is_voxel_in_world(&self, pos: VoxelPos) -> (inside: bool)
        ensures
            inside == {
                let edge = VoxelData::WORLD_SIZE * VoxelData::CHUNK_WIDTH - 1;
                &&& 0 < pos.x < edge
                &&& 0 < pos.y < edge
                &&& 0 < pos.z < edge
            },
    {
        let edge: i32 = VoxelData::WORLD_SIZE * VoxelData::CHUNK_WIDTH - 1;
        if pos.x > 0 && pos.x < edge && pos.y > 0 && pos.y < edge && pos.z > 0 && pos.z < edge {
            return true;
        }
        return false;
    }

    /// The block of a world without terrain at `pos`: stone in the lowest
    /// layer, sand in the highest layer of a chunk, bedrock elsewhere.
    pub fn get_voxel(pos: VoxelPos) -> (id: i32)
        ensures
            id == if pos.y < 1 {
                EBlockType::Stone.spec_id()
            } else if pos.y == VoxelData::CHUNK_HEIGHT - 1 {
                EBlockType::Sand.spec_id()
            } else {
                EBlockType::BedRock.spec_id()
            },
    {
        if pos.y < 1 {
            EBlockType::Stone.id()
        } else if pos.y == VoxelData::CHUNK_HEIGHT - 1 {
            EBlockType::Sand.id()
        } else {
            EBlockType::BedRock.id()
        }
    }

    /// Whether the world has a generated chunk at `coord`.
    pub fn get_chunk_is_update(&self, coord: ChunkCoord) -> (generated: bool)
        requires
            self.well_formed(),
        ensures
            generated == self@.chunks.dom().contains(coord),
    {
        match self.find(coord) {
            Some(place) => {
                proof {
                    lemma_generated_chunk(
                        self.noise,
                        self.registry@,
                        coord,
                        self.chunks@[place as int]@.active,
                    );
                    assert(self.chunk_views()[place as int] == self.chunks@[place as int]@);
                }
                self.chunks[place].is_updated()
            },
            None => false,
        }
    }

    /// Whether the world has a chunk at `coord` that is active.
    pub fn get_chunk_is_active(&self, coord: ChunkCoord) -> (active: bool)
        requires
            self.well_formed(),
        ensures
            active == self@.active_coords().contains(coord),
    {
        match self.find(coord) {
            Some(place) => self.chunks[place].is_active(),
            None => false,
        }
    }

    /// Hands out the chunks that have been made since chunks were last
    /// handed out: the places from the first to, but not including, the
    /// second of the result hold the chunks that are new. Nothing else
    /// changes.
    pub fn take_new_chunks(&mut self) -> (places: (usize, usize))
        requires
            old(self).well_formed(),
        ensures
            final(self).well_formed(),
            places.0 == old(self)@.published,
            places.1 == old(self)@.order.len(),
            final(self)@ == (WorldView { published: old(self)@.order.len(), ..old(self)@ }),
    {
        let first = self.published;
        let last = self.chunks.len();
        self.published = last;
        (first, last)
    }

    /// Number of chunks in the world.
    pub fn chunk_count(&self) -> (count: usize)
        ensures
            count == self@.order.len(),
    {
        self.chunks.len()
    }

    /// The chunk that was made as number `place`.
    pub fn chunk_at(&self, place: usize) -> (chunk: &Chunk)
        requires
            self.well_formed(),
            place < self@.order.len(),
        ensures
            chunk@.coord == self@.order[place as int],
            chunk@ == self@.chunks[self@.order[place as int]],
    {
        proof {
            assert(self.chunk_views()[place as int] == self.chunks@[place as int]@);
            assert(self.index@.contains_key(coord_key(self.chunk_views()[place as int].coord)));
        }
        &self.chunks[place]
    }

    /// The chunk at `coord`, if the world has one.
    pub fn get_chunk(&self, coord: ChunkCoord) -> (chunk: Option<&Chunk>)
        requires
            self.well_formed(),
        ensures
            chunk.is_some() == self@.chunks.dom().contains(coord),
            chunk.is_some() ==> chunk.unwrap()@ == self@.chunks[coord],
    {
        match self.find(coord) {
            Some(place) => Some(&self.chunks[place]),
            None => None,
        }
    }

    /// Gives the chunk at `coord` its turn in the walk of `region`:
    /// generates it if the world has none there, and else makes it active
    /// if `active` says so.
    fn visit(
        &mut self,
        coord: ChunkCoord,
        active: bool,
        Ghost(before): Ghost<WorldView>,
        Ghost(region): Ghost<Region>,
    )
        requires
            old(self).well_formed(),
            region.contains(coord),
            filled_upto(before, old(self)@, region, active, coord.y as int, coord.x as int),
        ensures
            final(self).well_formed(),
            filled_upto(before, final(self)@, region, active, coord.y as int, coord.x + 1),
    {
        let ghost walked = region.walk_upto(coord.y as int, coord.x as int);
        let ghost have = before.chunks.dom();
        proof {
            let longer = region.walk_upto(coord.y as int, coord.x + 1);
            assert(longer =~= walked.push(coord));
            assert(longer.drop_last() =~= walked);
        }
        match self.find(coord) {
            Some(place) => {
                if active {
                    self.set_chunk_active(place, coord, true);
                }
                proof {
                    let now = self@;
                    let was = old(self)@;
                    assert(have.contains(coord));
                    assert forall|other: ChunkCoord| #[trigger]
                        now.chunks.dom().contains(other) implies now.chunks[other] == if have.contains(
                        other,
                    ) {
                        if active && region.walked_before(other, coord.y as int, coord.x + 1) {
                            ChunkView { active: true, ..before.chunks[other] }
                        } else {
                            before.chunks[other]
                        }
                    } else {
                        generated_chunk(before.noise, before.kinds, other, active)
                    } by {
                        assert(was.chunks.dom().contains(other));
                    }
                }
            },
            None => {
                self.create_chunk(coord, active);
                proof {
                    let now = self@;
                    let was = old(self)@;
                    assert(!have.contains(coord));
                    assert(now.order =~= before.order + fresh(walked, have).push(coord));
                    assert forall|other: ChunkCoord| #[trigger]
                        now.chunks.dom().contains(other) implies now.chunks[other] == if have.contains(
                        other,
                    ) {
                        if active && region.walked_before(other, coord.y as int, coord.x + 1) {
                            ChunkView { active: true, ..before.chunks[other] }
                        } else {
                            before.chunks[other]
                        }
                    } else {
                        generated_chunk(before.noise, before.kinds, other, active)
                    } by {
                        if other != coord {
                            assert(was.chunks.dom().contains(other));
                        }
                    }
                }
            },
        }
    }

    /// Walks the region from `first_x` to `last_x` and from `first_y` to
    /// `last_y`, row by row, and gives each of its chunks its turn.
    fn fill(&mut self, first_x: i32, last_x: i32, first_y: i32, last_y: i32, active: bool)
        requires
            old(self).well_formed(),
            first_x <= last_x,
            first_y <= last_y,
        ensures
            final(self).well_formed(),
            filled_upto(
                old(self)@,
                final(self)@,
                Region {
                    first_x: first_x as int,
                    last_x: last_x as int,
                    first_y: first_y as int,
                    last_y: last_y as int,
                },
                active,
                last_y as int,
                first_x as int,
            ),
    {
        let ghost before = self@;
        let ghost region = Region {
            first_x: first_x as int,
            last_x: last_x as int,
            first_y: first_y as int,
            last_y: last_y as int,
        };
        proof {
            assert(region.walk_upto(first_y as int, first_x as int) =~= Seq::empty());
            assert(self@.order =~= before.order + fresh(Seq::empty(), before.chunks.dom()));
        }
        let mut y: i32 = first_y;
        while y < last_y
            invariant
                first_x <= last_x,
                first_y <= y <= last_y,
                region == (Region {
                    first_x: first_x as int,
                    last_x: last_x as int,
                    first_y: first_y as int,
                    last_y: last_y as int,
                }),
                self.well_formed(),
                filled_upto(before, self@, region, active, y as int, first_x as int),
            decreases last_y - y,
        {
            let mut x: i32 = first_x;
            while x < last_x
                invariant
                    first_x <= x <= last_x,
                    first_y <= y < last_y,
                    region == (Region {
                        first_x: first_x as int,
                        last_x: last_x as int,
                        first_y: first_y as int,
                        last_y: last_y as int,
                    }),
                    self.well_formed(),
                    filled_upto(before, self@, region, active, y as int, x as int),
                decreases last_x - x,
            {
                self.visit(ChunkCoord { x, y }, active, Ghost(before), Ghost(region));
                x += 1;
            }
            proof {
                assert(region.walk_upto(y + 1, first_x as int) =~= region.walk_upto(
                    y as int,
                    last_x as int,
                ));
            }
            y += 1;
        }
    }

    /// Generates every chunk of the start region, the square of
    /// `WORLD_SIZE` chunks around the origin, that the world does not have
    /// yet. The new chunks are inactive; the others are left as they are.
    pub fn generate_world(&mut self)
        requires
            old(self).well_formed(),
        ensures
            final(self).well_formed(),
            final(self)@.well_formed(),
            grown(old(self)@, final(self)@),
    {
        let range: i32 = VoxelData::WORLD_SIZE / 2;
        self.fill(-range, range, -range, range, false);
        proof {
            self.lemma_view_well_formed();
            let region = start_region();
            assert(region.walk_upto(region.last_y, region.first_x) =~= region.walk());
        }
    }

    /// Moves the active window to the viewer at the world position `pos`:
    /// every chunk of the window around the viewer's chunk that lies in the
    /// world is made active, and generated first if need be; every other
    /// chunk is made inactive.
    pub fn check_view_distance(&mut self, pos: VoxelPos)
        requires
            old(self).well_formed(),
        ensures
            final(self).well_formed(),
            final(self)@.well_formed(),
            streamed(old(self)@, final(self)@, chunk_coord_of(pos)),
            final(self)@.active_coords() == Set::new(
                |coord: ChunkCoord| in_view(chunk_coord_of(pos), coord) && in_world(coord),
            ),
    {
        let center = Self::get_chunkcoord_from_pos(pos);
        let range: i64 = VoxelData::VIEW_DISTANCE_IN_CHUNKS as i64;
        let first_x: i32 = Self::hold(center.x as i64 - range);
        let last_x: i32 = Self::hold(center.x as i64 + range + 1);
        let first_y: i32 = Self::hold(center.y as i64 - range);
        let last_y: i32 = Self::hold(center.y as i64 + range + 1);
        let ghost before = self@;

        self.deactivate_all();
        let ghost hidden = self@;
        self.fill(first_x, last_x, first_y, last_y, true);

        proof {
            let region = view_window(center);
            let after = self@;
            assert(region.walk_upto(region.last_y, region.first_x) =~= region.walk());
            assert(hidden.chunks.dom() == before.chunks.dom());
            assert forall|coord: ChunkCoord| #[trigger]
                after.chunks.dom().contains(coord) <==> before.chunks.dom().contains(coord) || (
                in_view(center, coord) && in_world(coord)) by {
                lemma_view_window(center, coord);
            }
            assert forall|coord: ChunkCoord| #[trigger]
                after.chunks.dom().contains(coord) implies after.chunks[coord] == if before.chunks.dom().contains(
                coord,
            ) {
                ChunkView {
                    active: in_view(center, coord) && in_world(coord),
                    ..before.chunks[coord]
                }
            } else {
                generated_chunk(before.noise, before.kinds, coord, true)
            } by {
                lemma_view_window(center, coord);
                if before.chunks.dom().contains(coord) {
                    assert(hidden.chunks[coord] == (ChunkView {
                        active: false,
                        ..before.chunks[coord]
                    }));
                }
            }
            self.lemma_view_well_formed();
            lemma_streamed_active_set(before, after, center);
        }
    }

    /// `value` held to the range from 0 to `WORLD_SIZE`.
    fn hold(value: i64) -> (inside: i32)
        ensures
            inside == held(value as int),
    {
        if value < 0 {
            0
        } else if value > VoxelData::WORLD_SIZE as i64 {
            VoxelData::WORLD_SIZE
        } else {
            value as i32
        }
    }
}

} // verus!
