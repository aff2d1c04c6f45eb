use matrixagon2::block::{Block, BlockCullType};
use matrixagon2::terrain_gen::{get_block, ColumnSample, Floralness, TerrainColumns};

fn col(base_level: i32, floral: Floralness) -> ColumnSample {
    ColumnSample { base_level, floral }
}

#[test]
fn blocks_of_a_high_column() {
    let c = col(20, Floralness::Barren);
    assert!(matches!(get_block(22, c), BlockCullType::Empty));
    assert!(matches!(get_block(21, c), BlockCullType::Empty));
    assert!(matches!(get_block(20, c), BlockCullType::Empty));
    assert!(matches!(get_block(19, c), BlockCullType::BorderVisible0(Block(0))));
    assert!(matches!(get_block(18, c), BlockCullType::BorderVisible0(Block(1))));
    assert!(matches!(get_block(17, c), BlockCullType::BorderVisible0(Block(1))));
    assert!(matches!(get_block(16, c), BlockCullType::BorderVisible0(Block(2))));
    assert!(matches!(get_block(14, c), BlockCullType::BorderVisible0(Block(2))));
    assert!(matches!(get_block(13, c), BlockCullType::BorderVisible0(Block(3))));
    assert!(matches!(get_block(-5, c), BlockCullType::BorderVisible0(Block(3))));
}

#[test]
fn plants_grow_on_the_surface() {
    assert!(matches!(get_block(20, col(20, Floralness::Grass)), BlockCullType::AlwaysVisible(Block(4))));
    assert!(matches!(get_block(20, col(20, Floralness::Flower)), BlockCullType::AlwaysVisible(Block(5))));
    assert!(matches!(get_block(21, col(20, Floralness::Flower)), BlockCullType::Empty));
}

#[test]
fn water_fills_low_columns() {
    let c = col(5, Floralness::Grass);
    assert!(matches!(get_block(10, c), BlockCullType::BorderVisibleFluid0(Block(6))));
    assert!(matches!(get_block(6, c), BlockCullType::BorderVisibleFluid0(Block(6))));
    assert!(matches!(get_block(5, c), BlockCullType::BorderVisibleFluid0(Block(6))));
    assert!(matches!(get_block(11, c), BlockCullType::Empty));
    assert!(matches!(get_block(4, c), BlockCullType::BorderVisible0(Block(3))));
}

#[test]
fn columns_need_one_sample_per_column() {
    assert!(TerrainColumns::new(0, 0, 2, 3, vec![col(1, Floralness::Barren); 5]).is_none());
    assert!(TerrainColumns::new(0, 0, 2, 3, vec![col(1, Floralness::Barren); 7]).is_none());
    assert!(TerrainColumns::new(0, 0, 2, 3, vec![col(1, Floralness::Barren); 6]).is_some());
    assert!(TerrainColumns::new(0, 0, 0, 3, vec![]).is_some());
    assert!(TerrainColumns::new(0, 0, 0, 3, vec![col(1, Floralness::Barren)]).is_none());
}

#[test]
fn columns_are_laid_out_row_by_row() {
    let mut samples = Vec::new();
    for x in 0..2 {
        for z in 0..3 {
            samples.push(col(10 * x + z, if z == 2 { Floralness::Flower } else { Floralness::Barren }));
        }
    }
    let cols = TerrainColumns::new(-1, 4, 2, 3, samples).unwrap();
    assert_eq!(cols.column(-1, 4).base_level, 0);
    assert_eq!(cols.column(-1, 6).base_level, 2);
    assert_eq!(cols.column(0, 5).base_level, 11);
    assert_eq!(cols.opaque_block_height_bound_test(0, 6), 12);
    assert_eq!(cols.fluid_height_existence_bound_test(0, 4), Some(10));
    assert_eq!(cols.floral_existence_bound_test(0, 6), Some(12));
    assert_eq!(cols.floral_existence_bound_test(0, 5), None);
    assert!(matches!(cols.get_block(0, 12, 6), BlockCullType::AlwaysVisible(Block(5))));
    assert!(matches!(cols.get_block(0, 11, 5), BlockCullType::Empty));
}
