//! The catalog of block kinds: solidity and per-face atlas tiles.

use vstd::prelude::*;

verus! {

/// Face index of the back face (towards negative z).
pub const BACK_FACE: i32 = 0;

/// Face index of the front face (towards positive z).
pub const FRONT_FACE: i32 = 1;

/// Face index of the top face (towards positive y).
pub const TOP_FACE: i32 = 2;

/// Face index of the bottom face (towards negative y).
pub const BOTTOM_FACE: i32 = 3;

/// Face index of the left face (towards negative x).
pub const LEFT_FACE: i32 = 4;

/// Face index of the right face (towards positive x).
pub const RIGHT_FACE: i32 = 5;

/// The kinds of block the terrain is made of. `Air` is the absent block.
#[derive(Clone, Copy, Debug)]
pub enum EBlockType {
    Air,
    Grass,
    Stone,
    BedRock,
    Sand,
}

impl EBlockType {
    /// The identifier stored in a voxel grid for this kind, which is also
    /// its position in the registry built by [`Block::new`].
    pub open spec fn spec_id(self) -> i32 {
        match self {
            EBlockType::Air => 0,
            EBlockType::Grass => 1,
            EBlockType::Stone => 2,
            EBlockType::BedRock => 3,
            EBlockType::Sand => 4,
        }
    }

    #[verifier::when_used_as_spec(spec_id)]
    pub fn id(self) -> (r: i32)
        ensures
            r == self.spec_id(),
    {
        match self {
            EBlockType::Air => 0,
            EBlockType::Grass => 1,
            EBlockType::Stone => 2,
            EBlockType::BedRock => 3,
            EBlockType::Sand => 4,
        }
    }
}

/// One block kind: its name, whether it fills its cell, and the atlas tile
/// shown on each of its six faces.
pub struct BlockType {
    pub block_name: String,
    pub is_solid: bool,
    pub back_face_texture: i32,
    pub front_face_texture: i32,
    pub top_face_texture: i32,
    pub bottom_face_texture: i32,
    pub right_face_texture: i32,
    pub left_face_texture: i32,
}

/// The mathematical content of a [`BlockType`].
pub struct BlockTypeView {
    pub block_name: Seq<char>,
    pub is_solid: bool,
    pub back_face_texture: int,
    pub front_face_texture: int,
    pub top_face_texture: int,
    pub bottom_face_texture: int,
    pub right_face_texture: int,
    pub left_face_texture: int,
}

impl BlockTypeView {
    /// The tile on face `face_index`; any index that names no face reads
    /// the back face.
    pub open spec fn texture_id(self, face_index: int) -> int {
        if face_index == 1 {
            self.front_face_texture
        } else if face_index == 2 {
            self.top_face_texture
        } else if face_index == 3 {
            self.bottom_face_texture
        } else if face_index == 4 {
            self.left_face_texture
        } else if face_index == 5 {
            self.right_face_texture
        } else {
            self.back_face_texture
        }
    }

    /// A block that shows the same tile on all six faces.
    pub open spec fn uniform(name: Seq<char>, is_solid: bool, tile: int) -> BlockTypeView {
        BlockTypeView {
            block_name: name,
            is_solid,
            back_face_texture: tile,
            front_face_texture: tile,
            top_face_texture: tile,
            bottom_face_texture: tile,
            right_face_texture: tile,
            left_face_texture: tile,
        }
    }

    pub open spec fn air() -> BlockTypeView {
        Self::uniform("Air"@, false, 0)
    }

    pub open spec fn grass() -> BlockTypeView {
        BlockTypeView {
            block_name: "Grass"@,
            is_solid: true,
            back_face_texture: 14,
            front_face_texture: 14,
            top_face_texture: 11,
            bottom_face_texture: 13,
            right_face_texture: 14,
            left_face_texture: 14,
        }
    }

    pub open spec fn stone() -> BlockTypeView {
        Self::uniform("Stone"@, true, 12)
    }

    pub open spec fn bed_rock() -> BlockTypeView {
        Self::uniform("BedRock"@, true, 5)
    }

    pub open spec fn sand() -> BlockTypeView {
        Self::uniform("Sand"@, true, 6)
    }
}

impl View for BlockType {
    type V = BlockTypeView;

    open spec fn view(&self) -> BlockTypeView {
        BlockTypeView {
            block_name: self.block_name@,
            is_solid: self.is_solid,
            back_face_texture: self.back_face_texture as int,
            front_face_texture: self.front_face_texture as int,
            top_face_texture: self.top_face_texture as int,
            bottom_face_texture: self.bottom_face_texture as int,
            right_face_texture: self.right_face_texture as int,
            left_face_texture: self.left_face_texture as int,
        }
    }
}

impl BlockType {
    /// The atlas tile on the face with the given index: 0 back, 1 front,
    /// 2 top, 3 bottom, 4 left, 5 right. Any other index reads the back face.
    pub fn get_texture_id(&self, face_index: i32) -> (tile: i32)
        ensures
            tile == self@.texture_id(face_index as int),
    {
        match face_index {
            0 => self.back_face_texture,
            1 => self.front_face_texture,
            2 => self.top_face_texture,
            3 => self.bottom_face_texture,
            4 => self.left_face_texture,
            5 => self.right_face_texture,
            _ => self.back_face_texture,
        }
    }

    /// The absent block: not solid, so it never shows a face.
    pub fn new_air() -> (block: BlockType)
        ensures
            block@ == BlockTypeView::air(),
    {
        BlockType {
            block_name: "Air".to_string(),
            is_solid: false,
            back_face_texture: 0,
            front_face_texture: 0,
            top_face_texture: 0,
            bottom_face_texture: 0,
            right_face_texture: 0,
            left_face_texture: 0,
        }
    }

    pub fn new_grass() -> (block: BlockType)
        ensures
            block@ == BlockTypeView::grass(),
    {
        BlockType {
            block_name: "Grass".to_string(),
            is_solid: true,
            back_face_texture: 14,
            front_face_texture: 14,
            top_face_texture: 11,
            bottom_face_texture: 13,
            right_face_texture: 14,
            left_face_texture: 14,
        }
    }

    pub fn new_stone() -> (block: BlockType)
        ensures
            block@ == BlockTypeView::stone(),
    {
        BlockType {
            block_name: "Stone".to_string(),
            is_solid: true,
            back_face_texture: 12,
            front_face_texture: 12,
            top_face_texture: 12,
            bottom_face_texture: 12,
            right_face_texture: 12,
            left_face_texture: 12,
        }
    }

    pub fn new_bed_rock() -> (block: BlockType)
        ensures
            block@ == BlockTypeView::bed_rock(),
    {
        BlockType {
            block_name: "BedRock".to_string(),
            is_solid: true,
            back_face_texture: 5,
            front_face_texture: 5,
            top_face_texture: 5,
            bottom_face_texture: 5,
            right_face_texture: 5,
            left_face_texture: 5,
        }
    }

    pub fn new_sand() -> (block: BlockType)
        ensures
            block@ == BlockTypeView::sand(),
    {
        BlockType {
            block_name: "Sand".to_string(),
            is_solid: true,
            back_face_texture: 6,
            front_face_texture: 6,
            top_face_texture: 6,
            bottom_face_texture: 6,
            right_face_texture: 6,
            left_face_texture: 6,
        }
    }
}

/// The registry of block kinds, indexed by block identifier. It is built
/// once and only read afterwards.
pub struct Block {
    pub block_types: Vec<BlockType>,
}

impl View for Block {
    type V = Seq<BlockTypeView>;

    open spec fn view(&self) -> Seq<BlockTypeView> {
        Seq::new(self.block_types@.len(), |i: int| self.block_types@[i]@)
    }
}

/// The kinds of the standard registry, in identifier order.
pub open spec fn standard_block_types() -> Seq<BlockTypeView> {
    seq![
        BlockTypeView::air(),
        BlockTypeView::grass(),
        BlockTypeView::stone(),
        BlockTypeView::bed_rock(),
        BlockTypeView::sand(),
    ]
}

/// Whether identifier `id` names a solid kind in `kinds`. An identifier
/// that names no kind counts as air.
pub open spec fn is_solid_in(kinds: Seq<BlockTypeView>, id: int) -> bool {
    0 <= id < kinds.len() && kinds[id].is_solid
}

/// The tile that kind `id` shows on face `face`; tile 0 where `id` names no
/// kind.
pub open spec fn face_texture_in(kinds: Seq<BlockTypeView>, id: int, face: int) -> int {
    if 0 <= id < kinds.len() {
        kinds[id].texture_id(face)
    } else {
        0
    }
}

impl Block {
    /// The standard registry: air, grass, stone, bedrock and sand, so that
    /// identifier 0 is air.
    pub fn new() -> (registry: Block)
        ensures
            registry@ == standard_block_types(),
    {
        let block_types = vec![
            BlockType::new_air(),
            BlockType::new_grass(),
            BlockType::new_stone(),
            BlockType::new_bed_rock(),
            BlockType::new_sand(),
        ];
        let registry = Block { block_types };
        assert(registry@ =~= standard_block_types());
        registry
    }

    /// Whether the kind with identifier `id` is solid. Air, and every
    /// identifier outside the registry, is not.
    pub fn is_solid(&self, id: i32) -> (solid: bool)
        ensures
            solid == is_solid_in(self@, id as int),
    {
        if id < 0 || id as usize >= self.block_types.len() {
            false
        } else {
            self.block_types[id as usize].is_solid
        }
    }

    /// The atlas tile that kind `id` shows on face `face`.
    pub fn face_texture(&self, id: i32, face: i32) -> (tile: i32)
        ensures
            tile == face_texture_in(self@, id as int, face as int),
    {
        if id < 0 || id as usize >= self.block_types.len() {
            0
        } else {
            self.block_types[id as usize].get_texture_id(face)
        }
    }
}

} // verus!
