use softrender::framebuffer::Framebuffer;
use softrender::framebuffer::BACKGROUND;
use softrender::framebuffer::DEPTH_FAR;
use softrender::fixed::ONE;
use softrender::geometry::edge_function;
use softrender::matrix::create_matrix4;
use softrender::matrix::Matrix4;
use softrender::projection::DEPTH_ONE;
use softrender::vector::Vector3;
use softrender::fixed::floor_div;
use softrender::geometry::interpolate;
use softrender::render::draw_triangle;
use softrender::render::mesh_is_valid;
use softrender::render::draw_mesh;
use softrender::shaders::ShaderColor;

fn red() -> ShaderColor {
    ShaderColor::from_rgb(255, 0, 0)
}

fn blue() -> ShaderColor {
    ShaderColor::from_rgb(0, 0, 255)
}

#[test]
fn edge_function_is_the_signed_parallelogram_area() {
    assert_eq!(edge_function((0, 0), (0, 16), (16, 0)), 256);
    assert_eq!(edge_function((0, 0), (16, 0), (0, 16)), -256);
    assert_eq!(edge_function((0, 0), (4, 4), (8, 8)), 0);
    assert_eq!(edge_function((1, 2), (3, 7), (-4, 5)), (-4 - 1) * (7 - 2) - (5 - 2) * (3 - 1));
    let big: i64 = 0x2_0000_0000;
    assert_eq!(
        edge_function((-big, -big), (-big, big), (big, -big)),
        (2 * big as i128) * (2 * big as i128)
    );
}

#[test]
fn floor_div_rounds_towards_minus_infinity() {
    assert_eq!(floor_div(7, 2), 3);
    assert_eq!(floor_div(-7, 2), -4);
    assert_eq!(floor_div(-8, 2), -4);
    assert_eq!(floor_div(-1, 3), -1);
    assert_eq!(floor_div(0, 5), 0);
    assert_eq!(floor_div(i128::MAX, 1), i128::MAX);
    assert_eq!(floor_div(i128::MIN + 1, i128::MAX), -1);
}

#[test]
fn interpolate_weights_by_barycentric_coordinates() {
    // Weights 1/4, 1/4, 1/2 of 100, 200, 400.
    assert_eq!(interpolate(100, 200, 400, 2, 2, 4, 8), 275);
    // A vertex alone gives its own value.
    assert_eq!(interpolate(-7, 9, 11, 8, 0, 0, 8), -7);
    // Rounded down, also below zero.
    assert_eq!(interpolate(-1, 0, 0, 1, 1, 1, 3), -1);
    assert_eq!(interpolate(1, 0, 0, 1, 1, 1, 3), 0);
    // The extremes of the range do not overflow.
    assert_eq!(interpolate(i32::MAX, i32::MAX, i32::MAX, 5, 6, 7, 18), i32::MAX);
    assert_eq!(interpolate(i32::MIN, i32::MIN, i32::MIN, 5, 6, 7, 18), i32::MIN);
}

#[test]
fn flat_triangle_covers_pixel_centres_inside_it() {
    let mut fb = Framebuffer::new(8, 8);
    draw_triangle(&mut fb, (0, 0, 10), (0, 8, 10), (8, 0, 10), red(), red(), red());
    let covered: Vec<usize> = (0..64).filter(|&i| fb.depth_buffer[i] == 10).collect();
    assert_eq!(
        covered,
        vec![
            0, 1, 2, 3, 4, 5, 6, 7, 8, 9, 10, 11, 12, 13, 14, 16, 17, 18, 19, 20, 21, 24, 25, 26,
            27, 28, 32, 33, 34, 35, 40, 41, 42, 48, 49, 56
        ]
    );
    for i in 0..64 {
        if covered.contains(&i) {
            assert_eq!(fb.buffer[i], 0xFF0000);
        } else {
            assert_eq!(fb.buffer[i], BACKGROUND);
            assert_eq!(fb.depth_buffer[i], DEPTH_FAR);
        }
    }
}

#[test]
fn triangle_interpolates_depth_and_colour() {
    let mut fb = Framebuffer::new(4, 4);
    draw_triangle(
        &mut fb,
        (0, 0, 0),
        (0, 4, 4000),
        (4, 0, -8000),
        ShaderColor::from_rgb(255, 0, 0),
        ShaderColor::from_rgb(0, 255, 0),
        ShaderColor::from_rgb(0, 0, 255),
    );
    let far = DEPTH_FAR;
    assert_eq!(
        fb.depth_buffer,
        vec![
            -500, -2500, -4500, -6500, 500, -1500, -3500, far, 1500, -500, far, far, 2500, far,
            far, far
        ]
    );
    let bg = BACKGROUND;
    assert_eq!(
        fb.buffer,
        vec![
            0xbf1f1f, 0x7f1f5f, 0x3f1f9f, 0x001fdf, 0x7f5f1f, 0x3f5f5f, 0x005f9f, bg, 0x3f9f1f,
            0x009f5f, bg, bg, 0x00df1f, bg, bg, bg
        ]
    );
}

#[test]
fn barycentric_weights_partition_unity() {
    // Triangle (0,0), (0,8), (8,0) on the half-pixel grid, where corners
    // double and the centre of pixel (x, y) is (2x + 1, 2y + 1).
    let a = (0, 0);
    let b = (0, 16);
    let c = (16, 0);
    let area = edge_function(a, b, c);
    assert_eq!(area, 256);
    for y in 0..8 {
        for x in 0..8 {
            let p = (2 * x + 1, 2 * y + 1);
            let w0 = edge_function(b, c, p);
            let w1 = edge_function(c, a, p);
            let w2 = edge_function(a, b, p);
            assert_eq!(w0 + w1 + w2, area);
            if w0 >= 0 && w1 >= 0 && w2 >= 0 {
                assert!(w0 <= area && w1 <= area && w2 <= area);
            }
        }
    }
}

#[test]
fn collinear_triangle_draws_nothing() {
    let mut fb = Framebuffer::new(16, 16);
    draw_triangle(&mut fb, (0, 0, 1), (5, 5, 1), (15, 15, 1), red(), red(), red());
    draw_triangle(&mut fb, (3, 3, 1), (3, 3, 1), (3, 3, 1), red(), red(), red());
    draw_triangle(&mut fb, (0, 7, 1), (15, 7, 1), (8, 7, 1), red(), red(), red());
    assert_eq!(fb.buffer, vec![BACKGROUND; 256]);
    assert_eq!(fb.depth_buffer, vec![DEPTH_FAR; 256]);
}

#[test]
fn reversed_winding_draws_nothing() {
    let mut fb = Framebuffer::new(8, 8);
    draw_triangle(&mut fb, (0, 0, 10), (8, 0, 10), (0, 8, 10), red(), red(), red());
    assert_eq!(fb.buffer, vec![BACKGROUND; 64]);
    assert_eq!(fb.depth_buffer, vec![DEPTH_FAR; 64]);
}

#[test]
fn nearer_triangle_wins_in_either_order() {
    let near = ((0, 0, 100), (0, 8, 100), (8, 0, 100));
    let far = ((0, 0, 200), (0, 6, 200), (6, 0, 200));
    let mut first = Framebuffer::new(8, 8);
    draw_triangle(&mut first, near.0, near.1, near.2, red(), red(), red());
    draw_triangle(&mut first, far.0, far.1, far.2, blue(), blue(), blue());
    let mut second = Framebuffer::new(8, 8);
    draw_triangle(&mut second, far.0, far.1, far.2, blue(), blue(), blue());
    draw_triangle(&mut second, near.0, near.1, near.2, red(), red(), red());
    assert_eq!(first.buffer, second.buffer);
    assert_eq!(first.depth_buffer, second.depth_buffer);
    // Pixel (1, 1) is covered by both.
    assert_eq!(first.buffer[9], 0xFF0000);
    assert_eq!(first.depth_buffer[9], 100);
}

#[test]
fn equal_depth_keeps_the_first_triangle() {
    let mut fb = Framebuffer::new(8, 8);
    draw_triangle(&mut fb, (0, 0, 50), (0, 8, 50), (8, 0, 50), red(), red(), red());
    draw_triangle(&mut fb, (0, 0, 50), (0, 8, 50), (8, 0, 50), blue(), blue(), blue());
    assert_eq!(fb.buffer[0], 0xFF0000);
    assert_eq!(fb.depth_buffer[0], 50);
}

#[test]
fn triangle_is_clipped_to_the_frame() {
    let mut fb = Framebuffer::new(4, 4);
    draw_triangle(
        &mut fb,
        (-1000, -1000, 5),
        (-1000, 3000, 5),
        (3000, -1000, 5),
        red(),
        red(),
        red(),
    );
    assert_eq!(fb.buffer, vec![0xFF0000; 16]);
    assert_eq!(fb.depth_buffer, vec![5; 16]);
    let mut off = Framebuffer::new(4, 4);
    draw_triangle(&mut off, (10, 10, 5), (10, 20, 5), (20, 10, 5), red(), red(), red());
    draw_triangle(&mut off, (-20, -20, 5), (-20, -10, 5), (-10, -20, 5), red(), red(), red());
    assert_eq!(off.buffer, vec![BACKGROUND; 16]);
}

#[test]
fn extreme_coordinates_do_not_overflow() {
    let mut fb = Framebuffer::new(4, 4);
    let hot = ShaderColor::new(i32::MAX, i32::MIN, 0, 0);
    draw_triangle(
        &mut fb,
        (i32::MIN, i32::MIN, i32::MIN),
        (i32::MIN, i32::MAX, i32::MIN),
        (i32::MAX, i32::MAX, i32::MIN),
        hot,
        hot,
        hot,
    );
    // The long edge runs along the diagonal: pixels on and below it are
    // covered.
    for y in 0..4 {
        for x in 0..4 {
            let i = y * 4 + x;
            if y >= x {
                assert_eq!(fb.buffer[i], 0xFF0000);
                assert_eq!(fb.depth_buffer[i], i32::MIN);
            } else {
                assert_eq!(fb.buffer[i], BACKGROUND);
                assert_eq!(fb.depth_buffer[i], DEPTH_FAR);
            }
        }
    }
}

#[test]
fn channels_outside_the_range_are_clamped() {
    let mut fb = Framebuffer::new(2, 2);
    let hot = ShaderColor::new(100_000, -5, 65279, 0);
    draw_triangle(&mut fb, (0, 0, 1), (0, 4, 1), (4, 0, 1), hot, hot, hot);
    assert_eq!(fb.buffer[0], 0xFF00FE);
}

/// A matrix that takes the point `(3 x - 1200, 1200 - 4 y, 1200)` to the
/// pixel `(x, y)` of the display at the depth of the far plane, and lets a
/// point with `z <= 0` fail, since `w` becomes `z`.
fn onto_screen() -> Matrix4 {
    create_matrix4(ONE, 0, 0, 0, 0, ONE, 0, 0, 0, 0, ONE, 0, 0, 0, ONE, 0)
}

fn unit() -> Matrix4 {
    create_matrix4(ONE, 0, 0, 0, 0, ONE, 0, 0, 0, 0, ONE, 0, 0, 0, 0, ONE)
}

fn at(x: i32, y: i32) -> Vector3 {
    Vector3::new(3 * x - 1200, 1200 - 4 * y, 1200)
}

#[test]
fn mesh_faces_are_drawn_and_failed_projections_dropped() {
    let positions = vec![at(0, 0), at(0, 8), at(8, 0), Vector3::new(0, 0, 0), at(8, 8)];
    let colors = vec![red(), red(), red(), blue(), blue()];
    let faces = vec![(0, 1, 2), (4, 2, 3), (3, 3, 3)];
    assert!(mesh_is_valid(&faces, positions.len()));
    let mut fb = Framebuffer::new(8, 8);
    draw_mesh(&mut fb, &unit(), &positions, &colors, &faces, &onto_screen());
    let mut expected = Framebuffer::new(8, 8);
    let far = DEPTH_ONE;
    draw_triangle(&mut expected, (0, 0, far), (0, 8, far), (8, 0, far), red(), red(), red());
    assert_eq!(fb.buffer, expected.buffer);
    assert_eq!(fb.depth_buffer, expected.depth_buffer);
    assert_eq!(fb.buffer[0], 0xFF0000);
    assert_eq!(fb.depth_buffer[0], DEPTH_ONE);
    // The far corner belongs only to the dropped face.
    assert_eq!(fb.buffer[63], BACKGROUND);
}

#[test]
fn mesh_with_two_faces_fills_the_square() {
    let positions = vec![at(0, 0), at(0, 4), at(4, 0), at(4, 4)];
    let colors = vec![red(), red(), red(), red()];
    let faces = vec![(0, 1, 2), (3, 2, 1)];
    let mut fb = Framebuffer::new(4, 4);
    draw_mesh(&mut fb, &unit(), &positions, &colors, &faces, &onto_screen());
    assert_eq!(fb.buffer, vec![0xFF0000; 16]);
    assert_eq!(fb.depth_buffer, vec![DEPTH_ONE; 16]);
}

#[test]
fn mesh_is_moved_by_its_model_matrix() {
    // The model matrix moves the mesh right by two pixels and down by one.
    let model = create_matrix4(ONE, 0, 0, 6, 0, ONE, 0, -4, 0, 0, ONE, 0, 0, 0, 0, ONE);
    let positions = vec![at(0, 0), at(0, 2), at(2, 0)];
    let colors = vec![red(), red(), red()];
    let faces = vec![(0, 1, 2)];
    let mut fb = Framebuffer::new(8, 8);
    draw_mesh(&mut fb, &model, &positions, &colors, &faces, &onto_screen());
    let mut expected = Framebuffer::new(8, 8);
    let far = DEPTH_ONE;
    draw_triangle(&mut expected, (2, 1, far), (2, 3, far), (4, 1, far), red(), red(), red());
    assert_eq!(fb.buffer, expected.buffer);
    assert_eq!(fb.depth_buffer, expected.depth_buffer);
    assert_eq!(fb.buffer[1 * 8 + 2], 0xFF0000);
    assert_eq!(fb.buffer[0], BACKGROUND);
    // Twice the move would reach pixel (4, 2); the model acts once.
    assert_eq!(fb.buffer[2 * 8 + 4], BACKGROUND);
}

#[test]
fn model_matrix_is_applied_once() {
    // A scale of two under a view and projection that change nothing.
    let model = create_matrix4(2 * ONE, 0, 0, 0, 0, 2 * ONE, 0, 0, 0, 0, 2 * ONE, 0, 0, 0, 0, ONE);
    let positions =
        vec![Vector3::new(0, 0, 0), Vector3::new(0, -ONE / 4, 0), Vector3::new(ONE / 4, 0, 0)];
    let white = ShaderColor::white();
    let mut fb = Framebuffer::new(800, 600);
    draw_mesh(&mut fb, &model, &positions, &vec![white; 3], &vec![(0, 1, 2)], &unit());
    // The triangle stands at (400, 300), (400, 450), (600, 300).
    let mut expected = Framebuffer::new(800, 600);
    draw_triangle(&mut expected, (400, 300, 0), (400, 450, 0), (600, 300, 0), white, white, white);
    assert_eq!(fb.buffer, expected.buffer);
    assert_eq!(fb.depth_buffer, expected.depth_buffer);
    assert_eq!(fb.buffer[320 * 800 + 450], 0xFFFFFF);
    assert_eq!(fb.buffer[310 * 800 + 700], BACKGROUND);
    assert_eq!(fb.buffer[310 * 800 + 599], BACKGROUND);
}

#[test]
fn mesh_validity_checks_every_index() {
    assert!(mesh_is_valid(&vec![], 0));
    assert!(mesh_is_valid(&vec![(0, 1, 2), (2, 1, 0)], 3));
    assert!(!mesh_is_valid(&vec![(0, 1, 3)], 3));
    assert!(!mesh_is_valid(&vec![(0, 1, 2), (3, 0, 0)], 3));
    assert!(!mesh_is_valid(&vec![(0, 5, 0)], 3));
    assert!(!mesh_is_valid(&vec![(0, 0, 0)], 0));
}
