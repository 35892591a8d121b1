use softrender::framebuffer::Framebuffer;
use softrender::framebuffer::BACKGROUND;
use softrender::framebuffer::DEPTH_FAR;
use softrender::fixed::ONE;
use softrender::line::draw_line;
use softrender::matrix::create_matrix4;
use softrender::matrix::Matrix4;
use softrender::projection::DEPTH_ONE;
use softrender::vector::Vector3;
use softrender::render::draw_line_3d;
use softrender::render::draw_triangle;
use softrender::render::render_ecliptic_plane;
use softrender::render::ORBIT_COLOR;
use softrender::shaders::ShaderColor;

const INK: u32 = 0x00ABCDEF;

/// The pixels an error-accumulating integer walk passes from one point to
/// the other, in order.
fn walk(start: (i32, i32), end: (i32, i32)) -> Vec<(i32, i32)> {
    let (mut x0, mut y0) = start;
    let (x1, y1) = end;
    let dx = (x1 - x0).abs();
    let dy = -(y1 - y0).abs();
    let sx = if x0 < x1 { 1 } else { -1 };
    let sy = if y0 < y1 { 1 } else { -1 };
    let mut err = dx + dy;
    let mut out = Vec::new();
    loop {
        out.push((x0, y0));
        if x0 == x1 && y0 == y1 {
            break;
        }
        let e2 = 2 * err;
        if e2 >= dy {
            err += dy;
            x0 += sx;
        }
        if e2 <= dx {
            err += dx;
            y0 += sy;
        }
    }
    out
}

fn inked(fb: &Framebuffer) -> Vec<(i32, i32)> {
    let mut out = Vec::new();
    for y in 0..fb.height {
        for x in 0..fb.width {
            if fb.buffer[y * fb.width + x] == INK {
                out.push((x as i32, y as i32));
            }
        }
    }
    out
}

#[test]
fn line_passes_the_pixels_of_the_integer_walk() {
    let size: i32 = 12;
    let ends: Vec<(i32, i32)> = vec![
        (0, 0),
        (11, 11),
        (11, 0),
        (0, 11),
        (3, 7),
        (7, 3),
        (5, 5),
        (11, 4),
        (2, 11),
        (-4, 3),
        (15, 9),
        (6, -5),
        (1, 17),
        (10, 1),
    ];
    for &a in &ends {
        for &b in &ends {
            let mut fb = Framebuffer::new(size as usize, size as usize);
            draw_line(&mut fb, (a.0, a.1, 0), (b.0, b.1, 0), INK);
            let mut expected: Vec<(i32, i32)> = if a == b {
                Vec::new()
            } else {
                walk(a, b)
                    .into_iter()
                    .filter(|p| p.0 >= 0 && p.0 < size && p.1 >= 0 && p.1 < size)
                    .collect()
            };
            expected.sort_by_key(|p| (p.1, p.0));
            assert_eq!(inked(&fb), expected, "line from {:?} to {:?}", a, b);
            assert_eq!(fb.depth_buffer, vec![DEPTH_FAR; (size * size) as usize]);
        }
    }
}

#[test]
fn line_interpolates_depth_along_the_longer_axis() {
    // Ten steps along x, depth from 0 to 1000: step k lies at depth 100 k.
    let mut fb = Framebuffer::new(11, 4);
    for x in 0..11 {
        fb.set_pixel_with_depth(x, 0, 450, 0x010101);
        fb.set_pixel_with_depth(x, 1, 450, 0x010101);
        fb.set_pixel_with_depth(x, 2, 450, 0x010101);
        fb.set_pixel_with_depth(x, 3, 450, 0x010101);
    }
    draw_line(&mut fb, (0, 0, 0), (10, 3, 1000), INK);
    let mut seen = inked(&fb);
    seen.sort();
    // Steps 0..=4 are nearer than 450; rows follow 3k/10 rounded to nearest.
    assert_eq!(seen, vec![(0, 0), (1, 0), (2, 1), (3, 1), (4, 1)]);
    assert_eq!(fb.depth_buffer, vec![450; 44]);
}

#[test]
fn line_depth_rounds_down() {
    let mut fb = Framebuffer::new(4, 1);
    for x in 0..4 {
        fb.set_pixel_with_depth(x, 0, -3, 0x010101);
    }
    // Depths at steps 0..=3 are 0 + floor(-10 k / 3): 0, -4, -7, -10.
    draw_line(&mut fb, (0, 0, 0), (3, 0, -10), INK);
    assert_eq!(inked(&fb), vec![(1, 0), (2, 0), (3, 0)]);
}

#[test]
fn diagonal_line_uses_every_step() {
    // Equal extents: every step moves along both axes.
    let mut fb = Framebuffer::new(5, 5);
    for i in 0..5 {
        fb.set_pixel_with_depth(i, i, 250, 0x010101);
    }
    draw_line(&mut fb, (0, 0, 0), (4, 4, 400), INK);
    // Depths 0, 100, 200 win against 250; 300 and 400 lose.
    assert_eq!(inked(&fb), vec![(0, 0), (1, 1), (2, 2)]);
}

#[test]
fn line_within_one_pixel_draws_nothing() {
    let mut fb = Framebuffer::new(4, 4);
    draw_line(&mut fb, (2, 2, -100), (2, 2, -100), INK);
    assert_eq!(fb.buffer, vec![BACKGROUND; 16]);
    assert_eq!(fb.depth_buffer, vec![DEPTH_FAR; 16]);
}

#[test]
fn line_with_extreme_ends_stays_in_range() {
    let mut fb = Framebuffer::new(3, 3);
    draw_line(&mut fb, (-7, 1, i32::MIN), (9, 1, i32::MAX - 1), INK);
    assert_eq!(inked(&fb), vec![(0, 1), (1, 1), (2, 1)]);
    let mut fb = Framebuffer::new(3, 3);
    draw_line(&mut fb, (1, -70000, 5), (1, 70000, 5), INK);
    assert_eq!(inked(&fb), vec![(1, 0), (1, 1), (1, 2)]);
}

#[test]
fn line_does_not_block_a_deeper_triangle() {
    let red = ShaderColor::from_rgb(255, 0, 0);
    let mut fb = Framebuffer::new(8, 8);
    draw_line(&mut fb, (0, 1, 10), (7, 1, 10), INK);
    assert_eq!(fb.buffer[8 + 1], INK);
    assert_eq!(fb.depth_buffer[8 + 1], DEPTH_FAR);
    draw_triangle(&mut fb, (0, 0, 500), (0, 8, 500), (8, 0, 500), red, red, red);
    assert_eq!(fb.buffer[8 + 1], 0xFF0000);
    assert_eq!(fb.depth_buffer[8 + 1], 500);
}

#[test]
fn triangle_blocks_a_deeper_line() {
    let red = ShaderColor::from_rgb(255, 0, 0);
    let mut fb = Framebuffer::new(8, 8);
    draw_triangle(&mut fb, (0, 0, 500), (0, 8, 500), (8, 0, 500), red, red, red);
    draw_line(&mut fb, (0, 1, 600), (7, 1, 600), INK);
    assert_eq!(fb.buffer[8 + 1], 0xFF0000);
    // At equal depth the line loses as well.
    draw_line(&mut fb, (0, 1, 500), (7, 1, 500), INK);
    assert_eq!(fb.buffer[8 + 1], 0xFF0000);
    // Pixel (7, 1) lies outside the triangle, so the line shows there.
    assert_eq!(fb.buffer[8 + 7], INK);
    // A nearer line is drawn over the triangle and leaves its depth.
    draw_line(&mut fb, (0, 1, 499), (7, 1, 499), INK);
    assert_eq!(fb.buffer[8 + 1], INK);
    assert_eq!(fb.depth_buffer[8 + 1], 500);
}

#[test]
fn lines_do_not_occlude_each_other() {
    let mut fb = Framebuffer::new(4, 4);
    draw_line(&mut fb, (0, 0, 1), (3, 0, 1), 0x111111);
    draw_line(&mut fb, (0, 0, 900), (3, 0, 900), 0x222222);
    assert_eq!(&fb.buffer[0..4], &[0x222222, 0x222222, 0x222222, 0x222222]);
}

/// A matrix that takes the point `(3 x - 1200, 1200 - 4 y, 1200)` to the
/// pixel `(x, y)` of the display at the depth of the far plane, and lets a
/// point with `z <= 0` fail, since `w` becomes `z`.
fn onto_screen() -> Matrix4 {
    create_matrix4(ONE, 0, 0, 0, 0, ONE, 0, 0, 0, 0, ONE, 0, 0, 0, ONE, 0)
}

fn at(x: i32, y: i32) -> Vector3 {
    Vector3::new(3 * x - 1200, 1200 - 4 * y, 1200)
}

fn behind() -> Vector3 {
    Vector3::new(0, 0, -5)
}

#[test]
fn line_with_a_failed_end_draws_nothing() {
    let m = onto_screen();
    let mut fb = Framebuffer::new(4, 4);
    draw_line_3d(&mut fb, &behind(), &at(3, 3), &m, INK);
    draw_line_3d(&mut fb, &at(0, 0), &behind(), &m, INK);
    draw_line_3d(&mut fb, &behind(), &behind(), &m, INK);
    draw_line_3d(&mut fb, &at(0, 0), &Vector3::new(0, 0, 0), &m, INK);
    assert_eq!(fb.buffer, vec![BACKGROUND; 16]);
    draw_line_3d(&mut fb, &at(0, 0), &at(3, 3), &m, INK);
    assert_eq!(inked(&fb), vec![(0, 0), (1, 1), (2, 2), (3, 3)]);
    assert_eq!(fb.depth_buffer, vec![DEPTH_FAR; 16]);
}

#[test]
fn line_in_space_is_tested_against_its_projected_depth() {
    let m = onto_screen();
    let mut fb = Framebuffer::new(4, 1);
    fb.set_pixel_with_depth(1, 0, DEPTH_ONE, 0x010101);
    fb.set_pixel_with_depth(2, 0, DEPTH_ONE + 1, 0x010101);
    draw_line_3d(&mut fb, &at(0, 0), &at(3, 0), &m, INK);
    // The line lies at the depth of the far plane all along.
    assert_eq!(inked(&fb), vec![(0, 0), (2, 0), (3, 0)]);
}

#[test]
fn orbit_segments_are_drawn_in_the_orbit_colour() {
    let mut fb = Framebuffer::new(4, 2);
    let segments = vec![(at(0, 0), at(3, 0)), (behind(), at(3, 1)), (at(0, 1), at(1, 1))];
    render_ecliptic_plane(&mut fb, &onto_screen(), &segments);
    assert_eq!(ORBIT_COLOR, 0x648CC8);
    let o = ORBIT_COLOR;
    let bg = BACKGROUND;
    assert_eq!(fb.buffer, vec![o, o, o, o, o, o, bg, bg]);
    assert_eq!(fb.depth_buffer, vec![DEPTH_FAR; 8]);
}
