use prismata::image_mask::{
    apply_mask_tool, colors_within_tolerance, fill_mask, invert_mask, magic_wand, mask_from_capture,
    mask_texture_bytes, mask_to_image, paint_brush, scroll_radius, MaskEditorState, MaskTool, SourceImage,
    MASK_BRUSH_RADIUS_MAX, MASK_BRUSH_RADIUS_MIN,
};

const W: [u8; 4] = [255, 255, 255, 255];
const B: [u8; 4] = [0, 0, 0, 255];

fn image(width: u32, height: u32, pixels: Vec<[u8; 4]>) -> SourceImage {
    assert_eq!(pixels.len(), (width * height) as usize);
    SourceImage { width, height, pixels }
}

#[test]
fn tolerance_compares_rgb_distance() {
    assert!(colors_within_tolerance([10, 10, 10, 0], [10, 10, 10, 255], 0));
    assert!(!colors_within_tolerance([10, 10, 10, 0], [11, 10, 10, 0], 0));
    assert!(colors_within_tolerance([0, 0, 0, 0], [3, 4, 0, 0], 5));
    assert!(colors_within_tolerance([0, 0, 0, 0], [3, 4, 3, 0], 5));
    assert!(!colors_within_tolerance([0, 0, 0, 0], [4, 4, 2, 0], 5));
    assert!(colors_within_tolerance([0, 0, 0, 0], [255, 255, 255, 0], 255));
}

#[test]
fn wand_fills_the_connected_region() {
    // W W B W
    // B W B W
    // W W B W
    let img = image(4, 3, vec![W, W, B, W, B, W, B, W, W, W, B, W]);
    let mut mask = vec![false; 12];
    magic_wand(&mut mask, (0, 0), &img, 10);
    let expected = vec![
        true, true, false, false, //
        false, true, false, false, //
        true, true, false, false,
    ];
    assert_eq!(mask, expected);
}

#[test]
fn wand_does_not_cross_masked_pixels() {
    let img = image(3, 1, vec![W, W, W]);
    let mut mask = vec![false, true, false];
    magic_wand(&mut mask, (0, 0), &img, 0);
    assert_eq!(mask, vec![true, true, false]);
}

#[test]
fn wand_from_a_masked_seed_does_nothing() {
    let img = image(2, 1, vec![W, W]);
    let mut mask = vec![true, false];
    magic_wand(&mut mask, (0, 0), &img, 255);
    assert_eq!(mask, vec![true, false]);
}

#[test]
fn wand_twice_is_wand_once() {
    let img = image(3, 2, vec![W, B, W, W, W, B]);
    let mut once = vec![false; 6];
    magic_wand(&mut once, (2, 0), &img, 0);
    let mut twice = once.clone();
    magic_wand(&mut twice, (2, 0), &img, 0);
    assert_eq!(once, vec![false, false, true, false, false, false]);
    assert_eq!(once, twice);
}

#[test]
fn brush_paints_a_disc() {
    let mut mask = vec![false; 25];
    paint_brush(&mut mask, 5, 5, 2, 2, 1, true);
    let set: Vec<usize> = (0..25).filter(|&i| mask[i]).collect();
    assert_eq!(set, vec![7, 11, 12, 13, 17]);
    paint_brush(&mut mask, 5, 5, 2, 2, 0, false);
    assert!(!mask[12]);
    assert!(mask[7]);
}

#[test]
fn fill_and_invert() {
    let mut mask = vec![false, true, false];
    invert_mask(&mut mask);
    assert_eq!(mask, vec![true, false, true]);
    invert_mask(&mut mask);
    assert_eq!(mask, vec![false, true, false]);
    fill_mask(&mut mask, true);
    assert_eq!(mask, vec![true, true, true]);
}

#[test]
fn mask_as_texture_and_image() {
    let mask = vec![true, false];
    assert_eq!(mask_texture_bytes(&mask), vec![255, 255, 255, 255, 0, 0, 0, 0]);
    let img = mask_to_image(&[false, true, true, false], 2, 2);
    assert_eq!((img.width, img.height), (2, 2));
    assert_eq!(img.bytes, vec![0, 0, 0, 255, 255, 255, 255, 255, 255, 0, 0, 0]);
}

#[test]
fn mask_from_captured_pixels() {
    let rgba = [0, 0, 0, 255, 0, 1, 0, 0, 0, 0, 0, 0];
    assert_eq!(mask_from_capture(&rgba), vec![false, true, false]);
}

#[test]
fn scrolling_resizes_the_brush_within_bounds() {
    assert_eq!(scroll_radius(10, 3), 13);
    assert_eq!(scroll_radius(2, -5), MASK_BRUSH_RADIUS_MIN);
    assert_eq!(scroll_radius(249, 10), MASK_BRUSH_RADIUS_MAX);
}

#[test]
fn mask_editor_tools() {
    let img = image(3, 3, vec![W, W, B, W, W, B, B, B, B]);
    let mut state = MaskEditorState::default();
    assert_eq!(state.tool, MaskTool::Wand);
    assert_eq!((state.radius, state.tolerance), (25, 20));
    let mut mask = vec![false; 9];
    apply_mask_tool(&state, &mut mask, &img, 0, 0);
    assert_eq!(mask, vec![true, true, false, true, true, false, false, false, false]);
    state.tool = MaskTool::Sub;
    state.radius = 0;
    apply_mask_tool(&state, &mut mask, &img, 1, 1);
    assert!(!mask[4]);
    state.tool = MaskTool::Add;
    state.radius = 1;
    apply_mask_tool(&state, &mut mask, &img, 3, 2);
    assert_eq!(mask, vec![true, true, false, true, false, false, false, false, true]);
}
