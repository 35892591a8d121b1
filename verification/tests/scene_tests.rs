use softrender::framebuffer::Framebuffer;
use softrender::framebuffer::BACKGROUND;
use softrender::framebuffer::DEPTH_FAR;
use softrender::noise::fbm3d;
use softrender::noise::lattice_hash;
use softrender::noise::perlin_noise;
use softrender::matrix::create_matrix4;
use softrender::matrix::create_model_matrix;
use softrender::matrix::create_projection_matrix;
use softrender::matrix::create_view_matrix;
use softrender::matrix::multiply_matrices;
use softrender::matrix::Matrix4;
use softrender::vector::Vector3;
use softrender::projection::project_vertex;
use softrender::projection::DEPTH_ONE;
use softrender::render::mesh_is_valid;
use softrender::render::draw_mesh;
use softrender::render::HEIGHT;
use softrender::render::WIDTH;
use softrender::shaders::channel_level;
use softrender::shaders::ShaderColor;
use softrender::shaders::CHANNEL_FULL;
use softrender::fixed::ONE;
use softrender::skybox::render_skybox;
use softrender::skybox::render_star;
use softrender::skybox::Star;

#[test]
fn channel_levels_clamp_and_drop_fraction() {
    assert_eq!(CHANNEL_FULL, 255 * 256);
    assert_eq!(channel_level(0), 0);
    assert_eq!(channel_level(-1), 0);
    assert_eq!(channel_level(i32::MIN), 0);
    assert_eq!(channel_level(255), 0);
    assert_eq!(channel_level(256), 1);
    assert_eq!(channel_level(65279), 254);
    assert_eq!(channel_level(65280), 255);
    assert_eq!(channel_level(i32::MAX), 255);
    assert_eq!(channel_level(128 * 256 + 200), 128);
}

#[test]
fn colours_from_levels_round_trip() {
    let c = ShaderColor::from_rgb(12, 200, 255);
    assert_eq!(c, ShaderColor::new(12 * 256, 200 * 256, 255 * 256, CHANNEL_FULL));
    assert_eq!(c.to_u32(), 0x0CC8FF);
    assert_eq!(ShaderColor::white().to_u32(), 0xFFFFFF);
    assert_eq!(ShaderColor::black().to_u32(), 0x000000);
    assert_eq!(ShaderColor::yellow().to_u32(), 0xFFFF00);
    assert_eq!(ShaderColor::white().a, CHANNEL_FULL);
    assert_eq!(ShaderColor::new(70000, -3, 300, 0).to_u32(), 0xFF0001);
}

#[test]
fn lattice_hash_is_fixed() {
    assert_eq!(lattice_hash(0, 0, 0), 0);
    assert_eq!(lattice_hash(1, 2, 3), 501646922);
    assert_eq!(lattice_hash(-1, -2, -3), 457849886);
    assert_eq!(lattice_hash(i32::MAX, i32::MIN, 12345), 1369764936);
    assert_eq!(lattice_hash(10, 0, 0), 1377774894);
    assert_eq!(lattice_hash(1, 2, 3), lattice_hash(1, 2, 3));
}

#[test]
fn lattice_noise_at_a_corner_is_the_corner_value() {
    // One minus the hash over 2^30, with sixteen fractional bits.
    assert_eq!(perlin_noise(0, 0, 0), ONE);
    assert_eq!(perlin_noise(ONE, 2 * ONE, 3 * ONE), ONE - 501646922 / 16384);
    assert_eq!(perlin_noise(ONE, 2 * ONE, 3 * ONE), 34918);
    assert_eq!(perlin_noise(10 * ONE, 0, 0), -18556);
}

#[test]
fn lattice_noise_blends_inside_a_cell() {
    assert_eq!(perlin_noise(ONE / 2, ONE / 2, ONE / 2), -18157);
    assert_eq!(perlin_noise(-1, -1, -1), 65531);
    assert_eq!(perlin_noise(100000, -200000, 300000), -6765);
    assert_eq!(perlin_noise(i32::MAX, i32::MIN, 12345), -19843);
}

#[test]
fn lattice_noise_stays_between_minus_one_and_one() {
    let mut x: i32 = -987654321;
    for _ in 0..2000 {
        x = x.wrapping_mul(1103515245).wrapping_add(12345);
        let y = x.wrapping_mul(69069).wrapping_add(1);
        let z = y.wrapping_mul(69069).wrapping_add(1);
        let n = perlin_noise(x, y, z);
        assert!(-ONE <= n && n <= ONE);
        let f = fbm3d(x, y, z, 5);
        assert!(-ONE <= f && f <= ONE);
    }
}

#[test]
fn fractal_noise_sums_its_octaves() {
    let (x, y, z) = (ONE, 2 * ONE, 3 * ONE);
    assert_eq!(fbm3d(x, y, z, 1), perlin_noise(x, y, z) / 2);
    assert_eq!(fbm3d(x, y, z, 1), 17459);
    assert_eq!(fbm3d(x, y, z, 2), 24604);
    assert_eq!(fbm3d(x, y, z, 4), 26897);
    assert_eq!(fbm3d(x, y, z, 7), 27430);
    assert_eq!(fbm3d(100000, -200000, 300000, 4), -2294);
}

#[test]
fn fractal_noise_without_octaves_is_zero() {
    assert_eq!(fbm3d(ONE, 2 * ONE, 3 * ONE, 0), 0);
    assert_eq!(fbm3d(ONE, 2 * ONE, 3 * ONE, -3), 0);
    assert_eq!(fbm3d(i32::MAX, i32::MIN, 7, 0), 0);
}

#[test]
fn fractal_noise_is_repeatable() {
    assert_eq!(fbm3d(ONE, 2 * ONE, 3 * ONE, 4), fbm3d(ONE, 2 * ONE, 3 * ONE, 4));
    assert_eq!(fbm3d(ONE, 2 * ONE, 3 * ONE, 4), 26897);
}

#[test]
fn octaves_beyond_the_sixteenth_add_nothing() {
    assert_eq!(fbm3d(ONE, 2 * ONE, 3 * ONE, 16), 27383);
    assert_eq!(fbm3d(ONE, 2 * ONE, 3 * ONE, 17), 27383);
    assert_eq!(fbm3d(ONE, 2 * ONE, 3 * ONE, i32::MAX), 27383);
    assert_eq!(fbm3d(100000, -200000, 300000, 40), -2255);
}

/// A matrix that takes the point `(3 x - 1200, 1200 - 4 y, z)` to the pixel
/// `(x, y)` of the display, at a depth of `z / 1200` of the far plane.
fn onto_screen() -> Matrix4 {
    create_matrix4(ONE, 0, 0, 0, 0, ONE, 0, 0, 0, 0, ONE, 0, 0, 0, 0, 1200)
}

fn at(x: i32, y: i32, z: i32) -> Vector3 {
    Vector3::new(3 * x - 1200, 1200 - 4 * y, z)
}

fn star(x: i32, y: i32, z: i32, color: u32, halo: Option<u32>) -> Star {
    Star { position: at(x, y, z), color, halo }
}

#[test]
fn visible_star_writes_colour_and_depth() {
    let mut fb = Framebuffer::new(5, 5);
    render_star(&mut fb, &onto_screen(), &star(2, 2, 3, 0xAAAAAA, None));
    assert_eq!(fb.buffer[12], 0xAAAAAA);
    // 3 / 1200 of the far plane, rounded down.
    assert_eq!(fb.depth_buffer[12], 2621);
    assert_eq!(fb.buffer.iter().filter(|&&c| c != BACKGROUND).count(), 1);
}

#[test]
fn bright_star_tints_its_neighbours_without_depth() {
    let mut fb = Framebuffer::new(5, 5);
    // One neighbour is already nearer than the star.
    fb.set_pixel_with_depth(3, 3, 10, 0x010101);
    render_star(&mut fb, &onto_screen(), &star(2, 2, 3, 0xAAAAAA, Some(0x333333)));
    for y in 0..5 {
        for x in 0..5 {
            let i = y * 5 + x;
            let near = (x as i32 - 2).abs() <= 1 && (y as i32 - 2).abs() <= 1;
            if (x, y) == (2, 2) {
                assert_eq!(fb.buffer[i], 0xAAAAAA);
                assert_eq!(fb.depth_buffer[i], 2621);
            } else if (x, y) == (3, 3) {
                assert_eq!(fb.buffer[i], 0x010101);
                assert_eq!(fb.depth_buffer[i], 10);
            } else if near {
                assert_eq!(fb.buffer[i], 0x333333);
                assert_eq!(fb.depth_buffer[i], DEPTH_FAR);
            } else {
                assert_eq!(fb.buffer[i], BACKGROUND);
            }
        }
    }
}

#[test]
fn hidden_star_draws_no_halo() {
    let mut fb = Framebuffer::new(3, 3);
    fb.set_pixel_with_depth(1, 1, 2621, 0x010101);
    let m = onto_screen();
    // At the depth the pixel holds already.
    render_star(&mut fb, &m, &star(1, 1, 3, 0xAAAAAA, Some(0x333333)));
    // Outside the frame.
    render_star(&mut fb, &m, &star(7, 1, -3, 0xAAAAAA, Some(0x333333)));
    // Behind the eye.
    let behind = create_matrix4(ONE, 0, 0, 0, 0, ONE, 0, 0, 0, 0, ONE, 0, 0, 0, 0, -1200);
    render_star(&mut fb, &behind, &star(1, 1, -3, 0xAAAAAA, Some(0x333333)));
    let bg = BACKGROUND;
    assert_eq!(fb.buffer, vec![bg, bg, bg, bg, 0x010101, bg, bg, bg, bg]);
}

#[test]
fn star_at_the_corner_clips_its_halo() {
    let mut fb = Framebuffer::new(3, 3);
    let stars =
        vec![star(0, 0, -3, 0xAAAAAA, Some(0x333333)), star(2, 2, 0, 0xBBBBBB, None)];
    render_skybox(&mut fb, &onto_screen(), &stars);
    let bg = BACKGROUND;
    assert_eq!(
        fb.buffer,
        vec![0xAAAAAA, 0x333333, bg, 0x333333, 0x333333, bg, bg, bg, 0xBBBBBB]
    );
    assert_eq!(fb.depth_buffer[0], -2622);
    assert_eq!(fb.depth_buffer[8], 0);
    assert_eq!(fb.depth_buffer[1], DEPTH_FAR);
}

fn point(x: i32, y: i32, z: i32) -> Vector3 {
    Vector3::new(x, y, z)
}

/// The camera of the scene: at `(0, 0, 10)`, looking at the origin, with a
/// field of view of 60 degrees on the 800 by 600 display.
fn scene_camera() -> Matrix4 {
    let view = create_view_matrix(point(0, 0, 10 * ONE), point(0, 0, 0), point(0, ONE, 0));
    // The tangent of 30 degrees, the aspect 4 / 3, near 0.1 and far 100.
    let projection = create_projection_matrix(37837, 87381, 6553, 100 * ONE);
    multiply_matrices(&projection, &view)
}

#[test]
fn cube_in_front_of_the_camera_fills_the_centre() {
    let h = ONE / 2;
    let corners = vec![
        point(-h, -h, -h),
        point(h, -h, -h),
        point(h, h, -h),
        point(-h, h, -h),
        point(-h, -h, h),
        point(h, -h, h),
        point(h, h, h),
        point(-h, h, h),
    ];
    // Two triangles per face; both windings of each, so that every face has
    // a triangle the rasterizer accepts whichever way it is seen.
    let quads: [[usize; 4]; 6] = [
        [4, 5, 6, 7],
        [1, 0, 3, 2],
        [0, 4, 7, 3],
        [5, 1, 2, 6],
        [7, 6, 2, 3],
        [0, 1, 5, 4],
    ];
    let mut faces: Vec<(usize, usize, usize)> = Vec::new();
    for q in quads.iter() {
        faces.push((q[0], q[1], q[2]));
        faces.push((q[0], q[2], q[3]));
        faces.push((q[0], q[2], q[1]));
        faces.push((q[0], q[3], q[2]));
    }
    let view_proj = scene_camera();
    // The cube stands at the origin, unscaled and unturned.
    let model =
        create_model_matrix(point(0, 0, 0), ONE, point(0, 0, 0), point(ONE, ONE, ONE));
    // The front face looks at the camera.
    let front: Vec<(i32, i32, i32)> = (4..8)
        .map(|i| project_vertex(&corners[i], &view_proj).expect("in front of the camera"))
        .collect();
    assert_eq!(
        front,
        vec![
            (372, 327, 1028591),
            (427, 327, 1028591),
            (427, 272, 1028591),
            (372, 272, 1028591)
        ]
    );
    for p in front.iter() {
        assert!(p.0 >= 0 && (p.0 as usize) < WIDTH);
        assert!(p.1 >= 0 && (p.1 as usize) < HEIGHT);
        assert!(p.2 > -DEPTH_ONE && p.2 < DEPTH_ONE);
    }
    // The back face is farther and, seen in perspective, smaller.
    assert_eq!(project_vertex(&corners[0], &view_proj), Some((375, 324, 1030695)));
    let colors: Vec<ShaderColor> = vec![ShaderColor::from_rgb(200, 80, 40); 8];
    assert!(mesh_is_valid(&faces, corners.len()));
    let mut fb = Framebuffer::new(WIDTH, HEIGHT);
    draw_mesh(&mut fb, &model, &corners, &colors, &faces, &view_proj);
    let centre = (HEIGHT / 2) * WIDTH + WIDTH / 2;
    assert_eq!(fb.buffer[centre], 0xC85028);
    // The nearest face is the front one.
    assert_eq!(fb.depth_buffer[centre], 1028591);
    // Far from the cube the frame is untouched.
    assert_eq!(fb.buffer[0], BACKGROUND);
    assert_eq!(fb.buffer[WIDTH * HEIGHT - 1], BACKGROUND);
    assert_eq!(fb.depth_buffer[0], DEPTH_FAR);
    // The front face covers the pixels whose centres lie in its square.
    let drawn = fb.buffer.iter().filter(|&&c| c != BACKGROUND).count();
    assert_eq!(drawn, 55 * 55);
}

#[test]
fn vertex_behind_the_camera_drops_the_face() {
    let view_proj = scene_camera();
    let positions = vec![point(-ONE, -ONE, 0), point(-ONE, ONE, 0), point(ONE, 0, 20 * ONE)];
    assert!(project_vertex(&positions[0], &view_proj).is_some());
    assert!(project_vertex(&positions[1], &view_proj).is_some());
    assert_eq!(project_vertex(&positions[2], &view_proj), None);
    // A point in the plane of the eye has no screen point either.
    assert_eq!(project_vertex(&point(0, 0, 10 * ONE), &view_proj), None);
    assert_eq!(project_vertex(&point(0, 0, 0), &view_proj), Some((400, 300, 1029696)));
    let colors = vec![ShaderColor::white(); 3];
    let faces = vec![(0, 1, 2), (0, 2, 1)];
    let unit = create_matrix4(ONE, 0, 0, 0, 0, ONE, 0, 0, 0, 0, ONE, 0, 0, 0, 0, ONE);
    let mut fb = Framebuffer::new(WIDTH, HEIGHT);
    draw_mesh(&mut fb, &unit, &positions, &colors, &faces, &view_proj);
    assert!(fb.buffer.iter().all(|&c| c == BACKGROUND));
    assert!(fb.depth_buffer.iter().all(|&d| d == DEPTH_FAR));
}
