//! Colour resolution and triangle rasterization: each triangle of the mesh
//! is filled with one representative colour (the source pixel nearest its
//! centroid, unless an override is supplied), optionally with antialiased
//! borders, in mesh order, later triangles overdrawing earlier ones.

use vstd::prelude::*;
use crate::canvas::{
    aa_line, canvas_height, canvas_raw, canvas_wf, canvas_width, convex_fill, coord_ok, coords_ok,
    pixel_at, Canvas, Color,
};
use crate::geometry::{mesh_in_bounds, Point, Triangle};

verus! {

/// The x coordinate of the colour-sampling centroid: the integer-truncated
/// average of the vertex x coordinates.
pub open spec fn spec_centroid_x(a: Point, b: Point, c: Point) -> int {
    (a.x + b.x + c.x) / 3
}

/// The y coordinate of the colour-sampling centroid.
pub open spec fn spec_centroid_y(a: Point, b: Point, c: Point) -> int {
    (a.y + b.y + c.y) / 3
}

/// The default colour of a triangle: the source image's pixel at the
/// centroid, the coordinate clamped onto the image where the centroid lands
/// on the far boundary (vertices range over `[0, W] x [0, H]`).
pub open spec fn spec_default_color(img: Canvas, a: Point, b: Point, c: Point) -> Color {
    let cx = spec_centroid_x(a, b, c);
    let cy = spec_centroid_y(a, b, c);
    let px = if cx >= canvas_width(img) { canvas_width(img) - 1 } else { cx };
    let py = if cy >= canvas_height(img) { canvas_height(img) - 1 } else { cy };
    pixel_at(img, px, py)
}

/// Computes the default colour of a triangle from the source image.
pub fn default_color(img: &Canvas, a: Point, b: Point, c: Point) -> (r: Color)
    requires
        canvas_wf(*img),
        0 < canvas_width(*img),
        0 < canvas_height(*img),
    ensures
        r == spec_default_color(*img, a, b, c),
{
    let w = img.width();
    let h = img.height();
    let cx = ((a.x as u64 + b.x as u64 + c.x as u64) / 3) as u32;
    let cy = ((a.y as u64 + b.y as u64 + c.y as u64) / 3) as u32;
    let px = if cx >= w {
        w - 1
    } else {
        cx
    };
    let py = if cy >= h {
        h - 1
    } else {
        cy
    };
    img.get_pixel(px, py)
}

/// The default colours of every triangle of a mesh, in mesh order.
pub open spec fn spec_default_colors(img: Canvas, points: Seq<Point>, mesh: Seq<Triangle>) -> Seq<
    Color,
> {
    Seq::new(
        mesh.len(),
        |i: int| spec_default_color(img, points[mesh[i].0 as int], points[mesh[i].1 as int], points[mesh[i].2 as int]),
    )
}

/// Computes the default colour of every triangle of the mesh.
pub fn default_colors(img: &Canvas, points: &Vec<Point>, mesh: &Vec<Triangle>) -> (r: Vec<Color>)
    requires
        canvas_wf(*img),
        0 < canvas_width(*img),
        0 < canvas_height(*img),
        mesh_in_bounds(mesh@, points@.len() as int),
    ensures
        r@ == spec_default_colors(*img, points@, mesh@),
{
    let mut r: Vec<Color> = Vec::new();
    let mut i: usize = 0;
    while i < mesh.len()
        invariant
            canvas_wf(*img),
            0 < canvas_width(*img),
            0 < canvas_height(*img),
            mesh_in_bounds(mesh@, points@.len() as int),
            i <= mesh@.len(),
            r@ == spec_default_colors(*img, points@, mesh@).take(i as int),
        decreases mesh@.len() - i,
    {
        let t = mesh[i];
        assert(crate::geometry::triangle_in_bounds(mesh@[i as int], points@.len() as int));
        let color = default_color(img, points[t.0], points[t.1], points[t.2]);
        r.push(color);
        proof {
            assert(r@ =~= spec_default_colors(*img, points@, mesh@).take(i as int + 1));
        }
        i = i + 1;
    }
    proof {
        assert(r@ =~= spec_default_colors(*img, points@, mesh@));
    }
    r
}

/// One triangle's rasterization: the scanline fill with its flat colour,
/// then, with antialiasing, the three borders drawn as antialiased lines
/// between the vertex pairs `(0,1)`, `(1,2)`, `(2,0)`. A triangle whose
/// first and last vertices coincide is inert in the fill step, not an
/// error.
pub open spec fn spec_draw_triangle(
    raw: Seq<u8>,
    width: nat,
    height: nat,
    a: Point,
    b: Point,
    c: Point,
    color: Color,
    antialias: bool,
) -> Seq<u8> {
    let filled = if a.x == c.x && a.y == c.y {
        raw
    } else {
        convex_fill(
            raw,
            width,
            height,
            a.x as int,
            a.y as int,
            b.x as int,
            b.y as int,
            c.x as int,
            c.y as int,
            color.r,
            color.g,
            color.b,
        )
    };
    if antialias {
        let l1 = aa_line(
            filled,
            width,
            height,
            a.x as int,
            a.y as int,
            b.x as int,
            b.y as int,
            color.r,
            color.g,
            color.b,
        );
        let l2 = aa_line(
            l1,
            width,
            height,
            b.x as int,
            b.y as int,
            c.x as int,
            c.y as int,
            color.r,
            color.g,
            color.b,
        );
        aa_line(
            l2,
            width,
            height,
            c.x as int,
            c.y as int,
            a.x as int,
            a.y as int,
            color.r,
            color.g,
            color.b,
        )
    } else {
        filled
    }
}

/// Rasterizes one triangle onto the canvas.
pub fn draw_triangle(
    canvas: &mut Canvas,
    a: Point,
    b: Point,
    c: Point,
    color: Color,
    antialias: bool,
)
    requires
        0 < canvas_height(*old(canvas)),
        canvas_width(*old(canvas)) < 0x8000_0000,
        canvas_height(*old(canvas)) < 0x8000_0000,
        coord_ok(a),
        coord_ok(b),
        coord_ok(c),
    ensures
        canvas_width(*final(canvas)) == canvas_width(*old(canvas)),
        canvas_height(*final(canvas)) == canvas_height(*old(canvas)),
        canvas_raw(*final(canvas)) == spec_draw_triangle(
            canvas_raw(*old(canvas)),
            canvas_width(*old(canvas)),
            canvas_height(*old(canvas)),
            a,
            b,
            c,
            color,
            antialias,
        ),
        canvas_raw(*final(canvas)).len() == canvas_raw(*old(canvas)).len(),
{
    if !(a.x == c.x && a.y == c.y) {
        canvas.fill_triangle(a, b, c, color);
    }
    if antialias {
        canvas.draw_aa_line(a, b, color);
        canvas.draw_aa_line(b, c, color);
        canvas.draw_aa_line(c, a, color);
    }
}

/// What rasterizing a whole mesh leaves in the buffer: each triangle drawn
/// in mesh order, later triangles overdrawing earlier ones.
pub open spec fn spec_render(
    raw: Seq<u8>,
    width: nat,
    height: nat,
    points: Seq<Point>,
    mesh: Seq<Triangle>,
    colors: Seq<Color>,
    antialias: bool,
) -> Seq<u8>
    decreases mesh.len(),
{
    if mesh.len() == 0 {
        raw
    } else {
        let t = mesh[0];
        let after = spec_draw_triangle(
            raw,
            width,
            height,
            points[t.0 as int],
            points[t.1 as int],
            points[t.2 as int],
            colors[0],
            antialias,
        );
        spec_render(after, width, height, points, mesh.drop_first(), colors.drop_first(), antialias)
    }
}

/// Rasterizes the whole mesh onto the canvas, one triangle after the other,
/// in mesh order.
pub fn render_mesh(
    canvas: &mut Canvas,
    points: &Vec<Point>,
    mesh: &Vec<Triangle>,
    colors: &Vec<Color>,
    antialias: bool,
)
    requires
        0 < canvas_height(*old(canvas)),
        canvas_width(*old(canvas)) < 0x8000_0000,
        canvas_height(*old(canvas)) < 0x8000_0000,
        mesh_in_bounds(mesh@, points@.len() as int),
        coords_ok(points@),
        colors@.len() == mesh@.len(),
    ensures
        canvas_width(*final(canvas)) == canvas_width(*old(canvas)),
        canvas_height(*final(canvas)) == canvas_height(*old(canvas)),
        canvas_raw(*final(canvas)) == spec_render(
            canvas_raw(*old(canvas)),
            canvas_width(*old(canvas)),
            canvas_height(*old(canvas)),
            points@,
            mesh@,
            colors@,
            antialias,
        ),
        canvas_raw(*final(canvas)).len() == canvas_raw(*old(canvas)).len(),
{
    let ghost w = canvas_width(*old(canvas));
    let ghost h = canvas_height(*old(canvas));
    let ghost raw0 = canvas_raw(*old(canvas));
    let mut i: usize = 0;
    proof {
        assert(mesh@.skip(0) =~= mesh@);
        assert(colors@.skip(0) =~= colors@);
    }
    while i < mesh.len()
        invariant
            0 < h,
            w < 0x8000_0000,
            h < 0x8000_0000,
            mesh_in_bounds(mesh@, points@.len() as int),
            coords_ok(points@),
            colors@.len() == mesh@.len(),
            i <= mesh@.len(),
            canvas_width(*canvas) == w,
            canvas_height(*canvas) == h,
            canvas_raw(*canvas).len() == raw0.len(),
            spec_render(raw0, w, h, points@, mesh@, colors@, antialias) == spec_render(
                canvas_raw(*canvas),
                w,
                h,
                points@,
                mesh@.skip(i as int),
                colors@.skip(i as int),
                antialias,
            ),
        decreases mesh@.len() - i,
    {
        let t = mesh[i];
        assert(crate::geometry::triangle_in_bounds(mesh@[i as int], points@.len() as int));
        let ghost before = canvas_raw(*canvas);
        draw_triangle(canvas, points[t.0], points[t.1], points[t.2], colors[i], antialias);
        proof {
            let rest = mesh@.skip(i as int);
            let crest = colors@.skip(i as int);
            assert(rest[0] == mesh@[i as int]);
            assert(crest[0] == colors@[i as int]);
            assert(rest.drop_first() =~= mesh@.skip(i as int + 1));
            assert(crest.drop_first() =~= colors@.skip(i as int + 1));
        }
        i = i + 1;
    }
    proof {
        assert(mesh@.skip(i as int) =~= Seq::<Triangle>::empty());
        assert(colors@.skip(i as int) =~= Seq::<Color>::empty());
    }
}

/// Determinism of the pipeline: its every stage is pinned to a function of
/// its inputs, so two runs over the same shuffled point list, the same mesh
/// and the same configuration produce byte-identical canvases. (The shuffle
/// itself is deterministic only as far as the random source is: with the
/// same seed the generator replays the same permutation.)
pub proof fn lemma_pipeline_deterministic(
    pts1: Seq<Point>,
    pts2: Seq<Point>,
    unit: crate::opts::PixelUnit,
    min_distance: u32,
    raw: Seq<u8>,
    width: u32,
    height: u32,
    mesh: Seq<Triangle>,
    colors: Seq<Color>,
    antialias: bool,
)
    requires
        pts1 == pts2,
    ensures
        crate::sampler::spec_sample(pts1, unit, min_distance, width, height)
            == crate::sampler::spec_sample(pts2, unit, min_distance, width, height),
        spec_render(
            raw,
            width as nat,
            height as nat,
            crate::sampler::spec_sample(pts1, unit, min_distance, width, height),
            mesh,
            colors,
            antialias,
        ) == spec_render(
            raw,
            width as nat,
            height as nat,
            crate::sampler::spec_sample(pts2, unit, min_distance, width, height),
            mesh,
            colors,
            antialias,
        ),
{
}

/// The blank canvas the rasterizer starts from: every byte zeroed.
pub open spec fn spec_blank(width: nat, height: nat) -> Seq<u8> {
    Seq::<u8>::new(3 * width * height, |i: int| 0u8)
}

/// The colours a rendering uses: the supplied overrides, or the default
/// centroid colours from the source image.
pub open spec fn spec_resolved_colors(
    img: Canvas,
    points: Seq<Point>,
    mesh: Seq<Triangle>,
    overrides: Option<Seq<Color>>,
) -> Seq<Color> {
    match overrides {
        Some(o) => o,
        None => spec_default_colors(img, points, mesh),
    }
}

/// Builds the low-poly image: a fresh canvas of the source image's size,
/// every triangle of the mesh drawn over it in order, each with its
/// override colour if overrides are supplied (the external colour mapper's
/// results), else with the source pixel at its centroid.
pub fn create_low_poly(
    original: &Canvas,
    points: &Vec<Point>,
    triangulation: &Vec<Triangle>,
    color_overrides: Option<&Vec<Color>>,
    antialias: bool,
) -> (img: Canvas)
    requires
        canvas_wf(*original),
        0 < canvas_width(*original),
        0 < canvas_height(*original),
        canvas_width(*original) < 0x8000_0000,
        canvas_height(*original) < 0x8000_0000,
        mesh_in_bounds(triangulation@, points@.len() as int),
        coords_ok(points@),
        color_overrides is Some ==> color_overrides->0@.len() == triangulation@.len(),
    ensures
        canvas_width(img) == canvas_width(*original),
        canvas_height(img) == canvas_height(*original),
        canvas_raw(img) == spec_render(
            spec_blank(canvas_width(*original), canvas_height(*original)),
            canvas_width(*original),
            canvas_height(*original),
            points@,
            triangulation@,
            spec_resolved_colors(
                *original,
                points@,
                triangulation@,
                match color_overrides {
                    Some(o) => Some(o@),
                    None => None,
                },
            ),
            antialias,
        ),
        canvas_wf(img),
{
    let w = original.width();
    let h = original.height();
    let mut img = Canvas::new(w, h);
    match color_overrides {
        Some(o) => {
            render_mesh(&mut img, points, triangulation, o, antialias);
        },
        None => {
            let colors = default_colors(original, points, triangulation);
            render_mesh(&mut img, points, triangulation, &colors, antialias);
        },
    }
    img
}

} // verus!
