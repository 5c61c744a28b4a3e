use kantig::geometry::triangles_in_bounds;
use kantig::opts::PixelUnit;
use kantig::render::{create_low_poly, default_color, default_colors};
use kantig::sampler::{edge_points, EdgeMask};
use kantig::{Canvas, Color, Point, Triangle};

fn p(x: u32, y: u32) -> Point {
    Point { x, y }
}

fn c(r: u8, g: u8, b: u8) -> Color {
    Color { r, g, b }
}

fn flat_canvas(width: u32, height: u32, color: Color) -> Canvas {
    let mut data = Vec::new();
    for _ in 0..width * height {
        data.push(color.r);
        data.push(color.g);
        data.push(color.b);
    }
    Canvas::from_raw(width, height, data)
}

fn pixels_of(canvas: Canvas, width: u32, height: u32) -> Vec<Color> {
    let raw = canvas.into_raw();
    assert_eq!(raw.len(), (3 * width * height) as usize);
    raw.chunks(3).map(|t| c(t[0], t[1], t[2])).collect()
}

fn triangulate_points(points: &[Point]) -> Vec<Triangle> {
    let tri_points: Vec<rtriangulate::TriangulationPoint<f32>> = points
        .iter()
        .map(|q| rtriangulate::TriangulationPoint::new(q.x as f32, q.y as f32))
        .collect();
    rtriangulate::triangulate(&tri_points)
        .unwrap()
        .into_iter()
        .map(|t| Triangle(t.0, t.1, t.2))
        .collect()
}

#[test]
fn canvas_round_trip() {
    let data: Vec<u8> = (0..12).collect();
    let canvas = Canvas::from_raw(2, 2, data.clone());
    assert_eq!(canvas.width(), 2);
    assert_eq!(canvas.height(), 2);
    assert_eq!(canvas.get_pixel(0, 0), c(0, 1, 2));
    assert_eq!(canvas.get_pixel(1, 0), c(3, 4, 5));
    assert_eq!(canvas.get_pixel(0, 1), c(6, 7, 8));
    assert_eq!(canvas.get_pixel(1, 1), c(9, 10, 11));
    assert_eq!(canvas.into_raw(), data);
}

#[test]
fn new_canvas_is_zeroed() {
    let canvas = Canvas::new(3, 2);
    assert_eq!(canvas.into_raw(), vec![0u8; 18]);
}

#[test]
fn default_color_reads_the_truncated_centroid() {
    let data: Vec<u8> = (0..12).collect();
    let img = Canvas::from_raw(2, 2, data);
    // centroid of (0,0), (1,0), (0,1) is (0,0) after truncation
    assert_eq!(default_color(&img, p(0, 0), p(1, 0), p(0, 1)), c(0, 1, 2));
    // centroid of (1,1), (1,1), (1,1) is (1,1)
    assert_eq!(default_color(&img, p(1, 1), p(1, 1), p(1, 1)), c(9, 10, 11));
}

#[test]
fn default_color_clamps_the_far_boundary() {
    let data: Vec<u8> = (0..12).collect();
    let img = Canvas::from_raw(2, 2, data);
    // all three vertices on the far corner (2,2): clamped onto pixel (1,1)
    assert_eq!(default_color(&img, p(2, 2), p(2, 2), p(2, 2)), c(9, 10, 11));
}

#[test]
fn two_triangles_cover_the_whole_square() {
    // the scenario: an all-false 4x4 edge mask gives the four corners, the
    // triangulator two triangles, and the flat rasterization full coverage
    let m = EdgeMask::new(4, 4, vec![false; 16]).unwrap();
    let pts = edge_points(&m, &PixelUnit::Absolute(10000), 4, Some(1));
    assert_eq!(pts, vec![p(0, 0), p(4, 0), p(0, 4), p(4, 4)]);

    let mesh = triangulate_points(&pts);
    assert_eq!(mesh.len(), 2);
    assert!(triangles_in_bounds(&mesh, pts.len()));

    let source = flat_canvas(4, 4, c(10, 20, 30));
    let img = create_low_poly(&source, &pts, &mesh, None, false);
    for pixel in pixels_of(img, 4, 4) {
        assert_eq!(pixel, c(10, 20, 30));
    }
}

#[test]
fn override_colors_replace_the_defaults() {
    let pts = vec![p(0, 0), p(4, 0), p(0, 4), p(4, 4)];
    let mesh = triangulate_points(&pts);
    assert_eq!(mesh.len(), 2);

    let source = flat_canvas(4, 4, c(10, 20, 30));
    let overrides = vec![c(200, 0, 0), c(0, 200, 0)];
    let img = create_low_poly(&source, &pts, &mesh, Some(&overrides), false);
    let pixels = pixels_of(img, 4, 4);
    assert!(pixels.iter().all(|&q| q == overrides[0] || q == overrides[1]));
    assert!(pixels.iter().any(|&q| q == overrides[0]));
    assert!(pixels.iter().any(|&q| q == overrides[1]));
}

#[test]
fn default_colors_sample_each_triangle() {
    let pts = vec![p(0, 0), p(4, 0), p(0, 4), p(4, 4)];
    let mesh = triangulate_points(&pts);
    let source = flat_canvas(4, 4, c(9, 9, 9));
    let colors = default_colors(&source, &pts, &mesh);
    assert_eq!(colors.len(), mesh.len());
    assert!(colors.iter().all(|&q| q == c(9, 9, 9)));
}

#[test]
fn antialiasing_blends_the_borders() {
    // edges of fractional slope and distinct triangle colours: the Wu lines
    // must blend border pixels and change the flat rendering
    let pts = vec![p(0, 0), p(8, 0), p(0, 8), p(8, 8), p(3, 3)];
    let mesh = triangulate_points(&pts);
    assert!(mesh.len() >= 2);
    let overrides: Vec<Color> = (0..mesh.len()).map(|i| c((40 + 50 * i) as u8, 0, 0)).collect();
    let source = flat_canvas(8, 8, c(10, 20, 30));
    let flat = create_low_poly(&source, &pts, &mesh, Some(&overrides), false);
    let soft = create_low_poly(&source, &pts, &mesh, Some(&overrides), true);
    assert_ne!(flat.into_raw(), soft.into_raw());
}

#[test]
fn rendering_is_deterministic() {
    let pts = vec![p(0, 0), p(6, 0), p(0, 6), p(6, 6), p(3, 3)];
    let mesh = triangulate_points(&pts);
    let source = flat_canvas(6, 6, c(1, 2, 3));
    let a = create_low_poly(&source, &pts, &mesh, None, true);
    let b = create_low_poly(&source, &pts, &mesh, None, true);
    assert_eq!(a.into_raw(), b.into_raw());
}

#[test]
fn degenerate_triangles_are_inert() {
    // a triangle whose vertices coincide draws no fill and stays no error
    let pts = vec![p(2, 2), p(2, 2), p(2, 2)];
    let mesh = vec![Triangle(0, 1, 2)];
    let source = flat_canvas(4, 4, c(10, 20, 30));
    let img = create_low_poly(&source, &pts, &mesh, None, false);
    for pixel in pixels_of(img, 4, 4) {
        assert_eq!(pixel, c(0, 0, 0));
    }
}

#[test]
fn mesh_bounds_check_rejects_stray_indices() {
    let pts = vec![p(0, 0), p(4, 0), p(0, 4), p(4, 4)];
    assert!(triangles_in_bounds(&vec![Triangle(0, 1, 2), Triangle(1, 2, 3)], pts.len()));
    assert!(!triangles_in_bounds(&vec![Triangle(0, 1, 4)], pts.len()));
}
