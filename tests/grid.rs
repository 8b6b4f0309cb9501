use tableau::cache::{ensure_hex_grid, GridArtifacts, GridParams, GridStatus};
use tableau::grid::{generate_grid_centers, grid_dimensions, GridCell};
use tableau::canvas::Pixel;
use tableau::outline::{hexagon_outline_points, render_hex_outlines, thick_line_points};
use tableau::viewport::FIXED_ONE;

fn cell(row: i32, col: i32, staggered: bool) -> GridCell {
    GridCell { row, col, staggered }
}

#[test]
fn grid_dimensions_for_a_battle_map() {
    // columns: ceil(800 / (sqrt(3) 30)) = 16, rows: ceil(600 / 45) = 14, each plus the overflow
    assert_eq!(grid_dimensions(800, 600, 30 * FIXED_ONE, 1), (17, 15));
    assert_eq!(grid_dimensions(800, 600, 30 * FIXED_ONE, 0), (16, 14));
    assert_eq!(grid_dimensions(0, 0, FIXED_ONE, 2), (2, 2));
}

#[test]
fn grid_dimensions_on_exact_multiples() {
    // 90 / 45 is exactly 2 rows; 52 / (sqrt(3) 30) is just over 1 column
    assert_eq!(grid_dimensions(52, 90, 30 * FIXED_ONE, 0), (2, 2));
    assert_eq!(grid_dimensions(51, 91, 30 * FIXED_ONE, 0), (1, 3));
}

#[test]
fn grid_centers_for_a_battle_map() {
    let cells = generate_grid_centers(800, 600, 30 * FIXED_ONE, 1);
    // rows -1..15 and columns -1..17
    assert_eq!(cells.len(), 16 * 18);
    assert_eq!(cells[0], cell(-1, -1, true));
    assert_eq!(cells[1], cell(-1, 0, true));
    assert_eq!(cells[18], cell(0, -1, false));
    // row 0, column 0 is the origin
    assert_eq!(cells[19], cell(0, 0, false));
    // row 1, column 0 is shifted by half a column
    assert_eq!(cells[37], cell(1, 0, true));
    assert_eq!(cells[16 * 18 - 1], cell(14, 16, false));
}

#[test]
fn grid_centers_are_deterministic_and_row_major() {
    let a = generate_grid_centers(300, 200, 25 * FIXED_ONE, 3);
    let b = generate_grid_centers(300, 200, 25 * FIXED_ONE, 3);
    assert_eq!(a, b);
    assert_eq!(a[0], cell(-3, -3, true));
    for w in a.windows(2) {
        assert!(w[0].row < w[1].row || (w[0].row == w[1].row && w[0].col < w[1].col));
    }
    assert!(a.iter().all(|c| c.staggered == (c.row % 2 != 0)));
}

#[test]
fn empty_container_without_overflow_has_no_cells() {
    assert!(generate_grid_centers(0, 0, 30 * FIXED_ONE, 0).is_empty());
    assert_eq!(generate_grid_centers(0, 10, 30 * FIXED_ONE, 0).len(), 0);
}

#[test]
fn thick_line_steps_along_the_segment() {
    assert_eq!(
        thick_line_points((0, 0), (3, 4)),
        vec![(0, 0), (1, 1), (1, 2), (2, 2), (2, 3), (3, 4)]
    );
    assert_eq!(thick_line_points((0, 0), (3, 1)), vec![(0, 0), (1, 0), (2, 1), (3, 1)]);
}

#[test]
fn thick_line_rounds_halves_away_from_zero() {
    assert_eq!(thick_line_points((0, 0), (2, 1)), vec![(0, 0), (1, 1), (2, 1)]);
    assert_eq!(thick_line_points((0, 0), (-2, -1)), vec![(0, 0), (-1, -1), (-2, -1)]);
    assert_eq!(thick_line_points((5, 5), (2, 5)), vec![(5, 5), (4, 5), (3, 5), (2, 5)]);
}

#[test]
fn thick_line_of_no_length_is_one_point() {
    assert_eq!(thick_line_points((7, -2), (7, -2)), vec![(7, -2)]);
}

#[test]
fn hexagon_outline_visits_every_edge() {
    let vertices = vec![(10, 5), (0, 10), (-10, 5), (-10, -5), (0, -10), (10, -5)];
    let points = hexagon_outline_points(&vertices);
    // edges of length sqrt(125) (11 steps) and 10 (10 steps), each with both ends
    assert_eq!(points.len(), 4 * 12 + 2 * 11);
    assert_eq!(points[0], (10, 5));
    assert_eq!(points[11], (0, 10));
    assert_eq!(*points.last().unwrap(), (10, 5));
}

fn params(hex_size: f32) -> GridParams {
    GridParams { container_width: 800, container_height: 600, hex_size_bits: hex_size.to_bits(), overflow: 1 }
}

#[test]
fn second_identical_request_reuses_the_grid() {
    let empty = GridArtifacts { image_present: false, metadata: None };
    let (first, stored) = ensure_hex_grid(&empty, &params(30.0));
    assert_eq!(first, GridStatus::Generated);
    assert_eq!(stored, GridArtifacts { image_present: true, metadata: Some(params(30.0)) });
    let (second, after) = ensure_hex_grid(&stored, &params(30.0));
    assert_eq!(second, GridStatus::AlreadyExists);
    assert_eq!(after, stored);
}

#[test]
fn any_changed_field_regenerates_the_grid() {
    let stored = GridArtifacts { image_present: true, metadata: Some(params(30.0)) };
    let (status, after) = ensure_hex_grid(&stored, &params(30.001));
    assert_eq!(status, GridStatus::Generated);
    assert_eq!(after.metadata, Some(params(30.001)));
    let mut wider = params(30.0);
    wider.container_width = 801;
    assert_eq!(ensure_hex_grid(&stored, &wider).0, GridStatus::Generated);
    let mut more = params(30.0);
    more.overflow = 2;
    assert_eq!(ensure_hex_grid(&stored, &more).0, GridStatus::Generated);
}

#[test]
fn missing_image_or_sidecar_regenerates_the_grid() {
    let no_image = GridArtifacts { image_present: false, metadata: Some(params(30.0)) };
    assert_eq!(no_image.status_for(&params(30.0)), GridStatus::Generated);
    let no_sidecar = GridArtifacts { image_present: true, metadata: None };
    assert_eq!(no_sidecar.status_for(&params(30.0)), GridStatus::Generated);
}

#[test]
fn rendered_outline_is_grey_on_opaque_background() {
    let gray = Pixel { r: 122, g: 122, b: 122, a: 255 };
    let background = Pixel { r: 0, g: 0, b: 0, a: 255 };
    let hexagon = vec![(15, 12), (10, 15), (5, 12), (5, 7), (10, 4), (15, 7)];
    let canvas = render_hex_outlines(30, 20, &vec![hexagon]);
    assert_eq!((canvas.width, canvas.height), (30, 20));
    assert_eq!(canvas.get_pixel(15, 12), gray);
    assert_eq!(canvas.get_pixel(16, 12), gray);
    assert_eq!(canvas.get_pixel(5, 9), gray);
    assert_eq!(canvas.get_pixel(10, 9), background);
    assert_eq!(canvas.get_pixel(25, 2), background);
}

#[test]
fn rendering_no_hexagons_leaves_the_background() {
    let canvas = render_hex_outlines(4, 3, &vec![]);
    assert_eq!(canvas.pixels.len(), 12);
    assert!(canvas.pixels.iter().all(|p| *p == Pixel { r: 0, g: 0, b: 0, a: 255 }));
}

#[test]
fn rendered_stamps_are_plus_shapes() {
    let gray = Pixel { r: 122, g: 122, b: 122, a: 255 };
    let background = Pixel { r: 0, g: 0, b: 0, a: 255 };
    // a degenerate hexagon whose corners all sit on two points stamps two plus shapes
    let hexagon = vec![(3, 3), (3, 3), (3, 3), (3, 3), (3, 3), (4, 3)];
    let canvas = render_hex_outlines(8, 7, &vec![hexagon]);
    for (x, y) in [(3, 3), (2, 3), (4, 3), (3, 2), (3, 4), (5, 3), (4, 2), (4, 4)] {
        assert_eq!(canvas.get_pixel(x, y), gray);
    }
    for (x, y) in [(2, 2), (5, 2), (2, 4), (6, 3), (3, 5), (1, 3)] {
        assert_eq!(canvas.get_pixel(x, y), background);
    }
}
