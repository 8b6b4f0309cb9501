use tableau::canvas::{Canvas, Pixel};
use tableau::icon::{add_hex_stroke, apply_mask, crop_icon_source, crop_to_content, finish_icon, stroke_color};
use tableau::mask::create_hex_mask;
use tableau::viewport::{icon_frame, viewport_crop, CropRect, TransformStateObject, FIXED_ONE};

const CLEAR: Pixel = Pixel { r: 0, g: 0, b: 0, a: 0 };
const RED: Pixel = Pixel { r: 255, g: 0, b: 0, a: 255 };
const WHITE: Pixel = Pixel { r: 255, g: 255, b: 255, a: 255 };
const BLUE: Pixel = Pixel { r: 0, g: 0, b: 255, a: 255 };

fn filled(width: u32, height: u32, p: Pixel) -> Canvas {
    let mut c = Canvas::new(width, height);
    for y in 0..height {
        for x in 0..width {
            c.put_pixel(x, y, p);
        }
    }
    c
}

fn identity() -> TransformStateObject {
    TransformStateObject { scale: FIXED_ONE, position_x: 0, position_y: 0 }
}

#[test]
fn stroke_color_is_red_for_evil() {
    assert_eq!(stroke_color("evil"), RED);
}

#[test]
fn stroke_color_is_white_otherwise() {
    assert_eq!(stroke_color("neutral"), WHITE);
    assert_eq!(stroke_color("good"), WHITE);
    assert_eq!(stroke_color(""), WHITE);
    assert_eq!(stroke_color("Evil"), WHITE);
}

#[test]
fn new_canvas_is_transparent() {
    let c = Canvas::new(3, 2);
    assert_eq!(c.width, 3);
    assert_eq!(c.height, 2);
    assert_eq!(c.pixels.len(), 6);
    assert!(c.pixels.iter().all(|p| *p == CLEAR));
}

#[test]
fn bytes_round_trip() {
    let bytes: Vec<u8> = (0u8..16).collect();
    let c = Canvas::from_rgba_bytes(2, 2, &bytes).unwrap();
    assert_eq!(c.get_pixel(1, 0), Pixel { r: 4, g: 5, b: 6, a: 7 });
    assert_eq!(c.get_pixel(0, 1), Pixel { r: 8, g: 9, b: 10, a: 11 });
    assert_eq!(c.to_rgba_bytes(), bytes);
}

#[test]
fn bytes_of_wrong_length_are_refused() {
    assert!(Canvas::from_rgba_bytes(2, 2, &vec![0u8; 15]).is_none());
    assert!(Canvas::from_rgba_bytes(2, 2, &vec![0u8; 17]).is_none());
    assert!(Canvas::from_rgba_bytes(0, 5, &vec![]).is_some());
}

#[test]
fn crop_clamps_to_the_canvas() {
    let mut c = Canvas::new(4, 4);
    c.put_pixel(3, 3, BLUE);
    let r = c.crop(3, 3, 5, 5);
    assert_eq!((r.width, r.height), (1, 1));
    assert_eq!(r.get_pixel(0, 0), BLUE);
    let r = c.crop(9, 1, 2, 2);
    assert_eq!((r.width, r.height), (0, 2));
    let r = c.crop(1, 2, 2, 1);
    assert_eq!((r.width, r.height), (2, 1));
}

#[test]
fn apply_mask_keeps_only_covered_pixels() {
    let image = filled(2, 2, BLUE);
    let mut mask = Canvas::new(3, 3);
    mask.put_pixel(0, 0, WHITE);
    mask.put_pixel(1, 1, Pixel { r: 0, g: 0, b: 0, a: 1 });
    let out = apply_mask(&image, &mask);
    assert_eq!((out.width, out.height), (2, 2));
    assert_eq!(out.get_pixel(0, 0), BLUE);
    assert_eq!(out.get_pixel(1, 1), BLUE);
    assert_eq!(out.get_pixel(1, 0), CLEAR);
    assert_eq!(out.get_pixel(0, 1), CLEAR);
}

#[test]
fn add_hex_stroke_frames_the_image() {
    let mut image = filled(2, 1, BLUE);
    image.put_pixel(1, 0, CLEAR);
    let mut stroke_mask = Canvas::new(42, 41);
    stroke_mask.put_pixel(0, 0, WHITE);
    stroke_mask.put_pixel(20, 20, WHITE);
    stroke_mask.put_pixel(21, 20, WHITE);
    let out = add_hex_stroke(&image, &stroke_mask, "evil");
    assert_eq!((out.width, out.height), (42, 41));
    assert_eq!(out.get_pixel(0, 0), RED);
    assert_eq!(out.get_pixel(20, 20), BLUE);
    assert_eq!(out.get_pixel(21, 20), RED);
    assert_eq!(out.get_pixel(5, 5), CLEAR);
    let out = add_hex_stroke(&image, &stroke_mask, "neutral");
    assert_eq!(out.get_pixel(0, 0), WHITE);
    assert_eq!(out.get_pixel(21, 20), WHITE);
}

#[test]
fn crop_to_content_of_transparent_image_is_unchanged() {
    let mut c = Canvas::new(5, 4);
    let before = c.pixels.clone();
    let r = crop_to_content(&mut c);
    assert_eq!((r.width, r.height), (5, 4));
    assert_eq!(r.pixels, before);
    assert_eq!(c.pixels, before);
}

#[test]
fn crop_to_content_finds_the_bounding_box() {
    let mut c = Canvas::new(6, 5);
    c.put_pixel(1, 3, BLUE);
    c.put_pixel(4, 1, RED);
    let r = crop_to_content(&mut c);
    assert_eq!((r.width, r.height), (4, 3));
    assert_eq!(r.get_pixel(0, 2), BLUE);
    assert_eq!(r.get_pixel(3, 0), RED);
    assert_eq!(r.get_pixel(0, 0), CLEAR);
}

#[test]
fn crop_to_content_keeps_a_single_pixel() {
    let mut c = Canvas::new(3, 3);
    c.put_pixel(2, 1, BLUE);
    let r = crop_to_content(&mut c);
    assert_eq!((r.width, r.height), (1, 1));
    assert_eq!(r.get_pixel(0, 0), BLUE);
}

#[test]
fn viewport_of_unit_transform_on_logical_size_source() {
    let r = viewport_crop(&icon_frame(), &identity(), 450, 450);
    assert_eq!(r, CropRect { x: 129, y: 115, width: 190, height: 220 });
}

#[test]
fn viewport_scales_with_resolution_and_zoom() {
    let r = viewport_crop(&icon_frame(), &identity(), 900, 450);
    assert_eq!(r, CropRect { x: 259, y: 115, width: 381, height: 220 });
    let zoom = TransformStateObject { scale: 2 * FIXED_ONE, position_x: 0, position_y: 0 };
    let r = viewport_crop(&icon_frame(), &zoom, 450, 450);
    assert_eq!(r, CropRect { x: 64, y: 57, width: 95, height: 110 });
}

#[test]
fn viewport_follows_the_pan() {
    let pan = TransformStateObject {
        scale: FIXED_ONE,
        position_x: 10 * FIXED_ONE as i32,
        position_y: -(FIXED_ONE as i32) / 2,
    };
    let r = viewport_crop(&icon_frame(), &pan, 450, 450);
    assert_eq!(r, CropRect { x: 119, y: 115, width: 190, height: 220 });
    let far = TransformStateObject { scale: FIXED_ONE, position_x: 200 * FIXED_ONE as i32, position_y: 0 };
    let r = viewport_crop(&icon_frame(), &far, 450, 450);
    assert_eq!(r.x, 0);
}

#[test]
fn crop_icon_source_cuts_the_framed_region() {
    let mut source = Canvas::new(450, 450);
    source.put_pixel(129, 115, BLUE);
    let (rect, cropped) = crop_icon_source(&source, &identity());
    assert_eq!(rect, CropRect { x: 129, y: 115, width: 190, height: 220 });
    assert_eq!((cropped.width, cropped.height), (190, 220));
    assert_eq!(cropped.get_pixel(0, 0), BLUE);
    assert_eq!(cropped.get_pixel(1, 0), CLEAR);
}

#[test]
fn hex_mask_fills_the_polygon() {
    let vertices = vec![(8, 5), (5, 8), (1, 8), (0, 5), (1, 1), (8, 1)];
    let mask = create_hex_mask(10, 10, &vertices);
    assert_eq!((mask.width, mask.height), (10, 10));
    assert_eq!(mask.get_pixel(4, 4), WHITE);
    assert_eq!(mask.get_pixel(9, 9), CLEAR);
    assert_eq!(mask.get_pixel(9, 0), CLEAR);
}

#[test]
fn finish_icon_masks_strokes_and_trims() {
    let cropped = filled(10, 10, BLUE);
    let rect = CropRect { x: 0, y: 0, width: 10, height: 10 };
    let mask_vertices = vec![(9, 7), (5, 9), (0, 7), (0, 2), (5, 0), (9, 2)];
    let stroke_vertices = vec![(49, 37), (25, 49), (0, 37), (0, 12), (25, 0), (49, 12)];
    let icon = finish_icon(&cropped, &rect, &mask_vertices, &stroke_vertices, "evil");
    assert!(icon.width <= 50 && icon.height <= 50);
    assert!(icon.width >= 40 && icon.height >= 40);
    assert!(icon.pixels.iter().any(|p| *p == RED));
    assert!(icon.pixels.iter().any(|p| *p == BLUE));
    assert!(icon.pixels.iter().all(|p| *p == RED || *p == BLUE || *p == CLEAR));
}

#[test]
fn hex_mask_is_white_or_clear() {
    let vertices = vec![(8, 5), (5, 8), (1, 8), (0, 5), (1, 1), (8, 1)];
    let mask = create_hex_mask(10, 12, &vertices);
    assert!(mask.pixels.iter().all(|p| *p == WHITE || *p == CLEAR));
    // rows below every corner stay clear
    for x in 0..10 {
        assert_eq!(mask.get_pixel(x, 10), CLEAR);
        assert_eq!(mask.get_pixel(x, 11), CLEAR);
    }
}

#[test]
fn hex_mask_sets_its_corners() {
    let vertices = vec![(8, 5), (5, 8), (1, 8), (0, 5), (1, 1), (8, 1)];
    let mask = create_hex_mask(10, 10, &vertices);
    for &(x, y) in &vertices {
        assert_eq!(mask.get_pixel(x as u32, y as u32), WHITE);
    }
}
