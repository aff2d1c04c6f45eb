use matrixagon2::texture::{mipmap_blits, texture_layout, Extent2D, TextureIdMapper};

fn mapper(names: &[&str]) -> TextureIdMapper {
    TextureIdMapper::new(names.iter().map(|n| n.to_string()).collect())
}

#[test]
fn texture_ids_follow_load_order() {
    let m = mapper(&["grass_top", "dirt", "grass_side", "stone"]);
    assert_eq!(m.get("grass_top"), Some(0));
    assert_eq!(m.get("dirt"), Some(1));
    assert_eq!(m.get("stone"), Some(3));
    assert_eq!(m.get("water"), None);
    assert_eq!(m.id("grass_side"), 2);
    assert_eq!(m.id("water"), 0);
}

#[test]
fn a_name_loaded_twice_keeps_its_last_id() {
    let m = mapper(&["sand", "dirt", "sand"]);
    assert_eq!(m.get("sand"), Some(2));
    assert_eq!(m.get("dirt"), Some(1));
}

#[test]
fn textures_lie_one_after_another() {
    let e = Extent2D { width: 16, height: 16 };
    let layout = texture_layout(&vec![e, e, e], &vec![1024, 1024, 512]);
    assert_eq!(layout.extent, e);
    assert_eq!(layout.layer_count, 3);
    assert_eq!(layout.offsets, vec![0, 1024, 2048]);
}

#[test]
fn a_single_texture_starts_at_zero() {
    let e = Extent2D { width: 4, height: 2 };
    let layout = texture_layout(&vec![e], &vec![32]);
    assert_eq!(layout.offsets, vec![0]);
    assert_eq!(layout.layer_count, 1);
}

#[test]
fn mipmap_chain_halves_each_level() {
    let blits = mipmap_blits(Extent2D { width: 16, height: 4 });
    assert_eq!(blits.len(), 3);
    assert_eq!(blits[0].level, 1);
    assert_eq!(blits[0].src, Extent2D { width: 16, height: 4 });
    assert_eq!(blits[0].dst, Extent2D { width: 8, height: 2 });
    assert_eq!(blits[1].src, Extent2D { width: 8, height: 2 });
    assert_eq!(blits[1].dst, Extent2D { width: 4, height: 1 });
    assert_eq!(blits[2].level, 3);
    assert_eq!(blits[2].src, Extent2D { width: 4, height: 1 });
    assert_eq!(blits[2].dst, Extent2D { width: 2, height: 1 });
}
