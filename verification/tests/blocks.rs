use voxel_world::voxel::block::{
    Block, BlockType, EBlockType, BACK_FACE, BOTTOM_FACE, FRONT_FACE, LEFT_FACE, RIGHT_FACE,
    TOP_FACE,
};

fn faces(block: &BlockType) -> Vec<i32> {
    (0..6).map(|face| block.get_texture_id(face)).collect()
}

#[test]
fn grass_has_its_own_top_and_bottom() {
    let grass = BlockType::new_grass();
    assert_eq!(grass.block_name, "Grass");
    assert!(grass.is_solid);
    assert_eq!(grass.get_texture_id(BACK_FACE), 14);
    assert_eq!(grass.get_texture_id(FRONT_FACE), 14);
    assert_eq!(grass.get_texture_id(TOP_FACE), 11);
    assert_eq!(grass.get_texture_id(BOTTOM_FACE), 13);
    assert_eq!(grass.get_texture_id(LEFT_FACE), 14);
    assert_eq!(grass.get_texture_id(RIGHT_FACE), 14);
}

#[test]
fn stone_bedrock_and_sand_show_one_tile() {
    let stone = BlockType::new_stone();
    assert_eq!(stone.block_name, "Stone");
    assert!(stone.is_solid);
    assert_eq!(faces(&stone), vec![12; 6]);

    let bed_rock = BlockType::new_bed_rock();
    assert_eq!(bed_rock.block_name, "BedRock");
    assert!(bed_rock.is_solid);
    assert_eq!(faces(&bed_rock), vec![5; 6]);

    let sand = BlockType::new_sand();
    assert_eq!(sand.block_name, "Sand");
    assert!(sand.is_solid);
    assert_eq!(faces(&sand), vec![6; 6]);
}

#[test]
fn air_is_not_solid() {
    let air = BlockType::new_air();
    assert_eq!(air.block_name, "Air");
    assert!(!air.is_solid);
    assert_eq!(faces(&air), vec![0; 6]);
}

#[test]
fn face_order_is_back_front_top_bottom_left_right() {
    let block = BlockType {
        block_name: String::from("Marked"),
        is_solid: true,
        back_face_texture: 1,
        front_face_texture: 2,
        top_face_texture: 3,
        bottom_face_texture: 4,
        right_face_texture: 6,
        left_face_texture: 5,
    };
    assert_eq!(faces(&block), vec![1, 2, 3, 4, 5, 6]);
}

#[test]
fn unknown_face_reads_the_back_face() {
    let grass = BlockType::new_grass();
    let mut marked = BlockType::new_stone();
    marked.back_face_texture = 9;
    assert_eq!(marked.get_texture_id(6), 9);
    assert_eq!(marked.get_texture_id(-1), 9);
    assert_eq!(marked.get_texture_id(i32::MAX), 9);
    assert_eq!(grass.get_texture_id(100), 14);
}

#[test]
fn registry_starts_with_air() {
    let registry = Block::new();
    assert_eq!(registry.block_types.len(), 5);
    let names: Vec<&str> = registry.block_types.iter().map(|b| b.block_name.as_str()).collect();
    assert_eq!(names, vec!["Air", "Grass", "Stone", "BedRock", "Sand"]);
    assert!(!registry.is_solid(0));
    assert!(!registry.is_solid(EBlockType::Air.id()));
}

#[test]
fn block_ids_index_the_registry() {
    let registry = Block::new();
    assert_eq!(EBlockType::Air.id(), 0);
    assert_eq!(EBlockType::Grass.id(), 1);
    assert_eq!(EBlockType::Stone.id(), 2);
    assert_eq!(EBlockType::BedRock.id(), 3);
    assert_eq!(EBlockType::Sand.id(), 4);
    assert_eq!(registry.block_types[EBlockType::Grass.id() as usize].block_name, "Grass");
    assert_eq!(registry.block_types[EBlockType::Stone.id() as usize].block_name, "Stone");
    assert_eq!(registry.block_types[EBlockType::BedRock.id() as usize].block_name, "BedRock");
    assert_eq!(registry.block_types[EBlockType::Sand.id() as usize].block_name, "Sand");
}

#[test]
fn registry_tells_solid_kinds() {
    let registry = Block::new();
    assert!(registry.is_solid(EBlockType::Grass.id()));
    assert!(registry.is_solid(EBlockType::Stone.id()));
    assert!(registry.is_solid(EBlockType::BedRock.id()));
    assert!(registry.is_solid(EBlockType::Sand.id()));
}

#[test]
fn identifiers_outside_the_registry_count_as_air() {
    let registry = Block::new();
    assert!(!registry.is_solid(5));
    assert!(!registry.is_solid(-1));
    assert!(!registry.is_solid(i32::MAX));
    assert!(!registry.is_solid(i32::MIN));
    assert_eq!(registry.face_texture(5, TOP_FACE), 0);
    assert_eq!(registry.face_texture(-1, TOP_FACE), 0);
}

#[test]
fn registry_gives_face_textures() {
    let registry = Block::new();
    assert_eq!(registry.face_texture(EBlockType::Grass.id(), TOP_FACE), 11);
    assert_eq!(registry.face_texture(EBlockType::Grass.id(), BOTTOM_FACE), 13);
    assert_eq!(registry.face_texture(EBlockType::Grass.id(), LEFT_FACE), 14);
    assert_eq!(registry.face_texture(EBlockType::Stone.id(), FRONT_FACE), 12);
    assert_eq!(registry.face_texture(EBlockType::BedRock.id(), BACK_FACE), 5);
    assert_eq!(registry.face_texture(EBlockType::Sand.id(), RIGHT_FACE), 6);
    assert_eq!(registry.face_texture(EBlockType::Sand.id(), 77), 6);
}

#[test]
fn registry_follows_its_own_kinds() {
    let mut glass = BlockType::new_stone();
    glass.is_solid = false;
    glass.top_face_texture = 3;
    let registry = Block { block_types: vec![BlockType::new_air(), glass] };
    assert!(!registry.is_solid(1));
    assert_eq!(registry.face_texture(1, TOP_FACE), 3);
    assert_eq!(registry.face_texture(1, BOTTOM_FACE), 12);
    assert!(!registry.is_solid(2));
}
