use matrixagon2::block::{Block, BlockCullType, BlockGen, FaceDir, TextureMapper};

#[test]
fn decrease_visibility_steps_solid_to_obscured() {
    let mut b = BlockCullType::BorderVisible0(Block(3));
    b = b.decrease_visibility();
    assert!(matches!(b, BlockCullType::BorderVisible1(Block(3))));
    b = b.decrease_visibility();
    assert!(matches!(b, BlockCullType::BorderVisible2(Block(3))));
    b = b.decrease_visibility();
    assert!(matches!(b, BlockCullType::BorderVisible3(Block(3))));
    b = b.decrease_visibility();
    assert!(matches!(b, BlockCullType::Obscured));
    b = b.decrease_visibility();
    assert!(matches!(b, BlockCullType::Obscured));
}

#[test]
fn decrease_visibility_steps_fluid_to_obscured_fluid() {
    let mut b = BlockCullType::BorderVisibleFluid0(Block(6));
    for _ in 0..4 {
        b = b.decrease_visibility();
    }
    assert!(matches!(b, BlockCullType::ObscuredFluid));
    assert!(matches!(b.decrease_visibility(), BlockCullType::ObscuredFluid));
}

#[test]
fn decrease_visibility_keeps_other_states() {
    assert!(matches!(BlockCullType::Empty.decrease_visibility(), BlockCullType::Empty));
    assert!(matches!(
        BlockCullType::AlwaysVisible(Block(5)).decrease_visibility(),
        BlockCullType::AlwaysVisible(Block(5))
    ));
    assert!(matches!(BlockCullType::Obscured.decrease_visibility(), BlockCullType::Obscured));
}

#[test]
fn obscuring_power_of_culling_states() {
    assert!(BlockCullType::BorderVisible0(Block(1)).check_block_obscured());
    assert!(BlockCullType::Obscured.check_block_obscured());
    assert!(!BlockCullType::BorderVisibleFluid0(Block(6)).check_block_obscured());
    assert!(!BlockCullType::AlwaysVisible(Block(4)).check_block_obscured());
    assert!(!BlockCullType::Empty.check_block_obscured());

    assert!(BlockCullType::BorderVisibleFluid0(Block(6)).check_fluid_obscured());
    assert!(BlockCullType::ObscuredFluid.check_fluid_obscured());
    assert!(BlockCullType::BorderVisible0(Block(1)).check_fluid_obscured());
    assert!(!BlockCullType::Empty.check_fluid_obscured());
    assert!(!BlockCullType::AlwaysVisible(Block(4)).check_fluid_obscured());
}

#[test]
fn drawn_blocks() {
    assert_eq!(BlockCullType::BorderVisible0(Block(2)).drawn_block().map(|b| b.0), Some(2));
    assert_eq!(BlockCullType::BorderVisibleFluid0(Block(6)).drawn_block().map(|b| b.0), Some(6));
    assert_eq!(BlockCullType::AlwaysVisible(Block(5)).drawn_block().map(|b| b.0), Some(5));
    assert!(BlockCullType::BorderVisible1(Block(2)).drawn_block().is_none());
    assert!(BlockCullType::Obscured.drawn_block().is_none());
}

#[test]
fn block_gen_obscures() {
    assert!(BlockGen::Opaque(Block(1)).test_block_obscured());
    assert!(BlockGen::Obscured.test_block_obscured());
    assert!(!BlockGen::Transparent(Block(4)).test_block_obscured());
    assert!(!BlockGen::Empty.test_block_obscured());
}

#[test]
fn texture_mapper_all() {
    let m = TextureMapper::All("stone");
    assert_eq!(m.top(), "stone");
    assert_eq!(m.bottom(), "stone");
    assert_eq!(m.left(), "stone");
    assert_eq!(m.right(), "stone");
    assert_eq!(m.front(), "stone");
    assert_eq!(m.back(), "stone");
    assert_eq!(m.default(), "stone");
}

#[test]
fn texture_mapper_lateral() {
    let m = TextureMapper::Lateral("grass_top", "dirt", "grass_side");
    assert_eq!(m.top(), "grass_top");
    assert_eq!(m.bottom(), "dirt");
    assert_eq!(m.left(), "grass_side");
    assert_eq!(m.right(), "grass_side");
    assert_eq!(m.front(), "grass_side");
    assert_eq!(m.back(), "grass_side");
    assert_eq!(m.default(), "grass_top");
}

#[test]
fn texture_mapper_unique() {
    let m = TextureMapper::Unique("t", "b", "e", "s", "w", "n");
    assert_eq!(m.top(), "t");
    assert_eq!(m.bottom(), "b");
    assert_eq!(m.right(), "e");
    assert_eq!(m.front(), "s");
    assert_eq!(m.left(), "w");
    assert_eq!(m.back(), "n");
    assert_eq!(m.default(), "t");
    assert_eq!(m.face(FaceDir::RIGHT), "e");
    assert_eq!(m.face(FaceDir::BACK), "n");
}
