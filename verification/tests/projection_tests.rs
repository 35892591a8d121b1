use softrender::obj_loader::triangulate_face;
use softrender::matrix::Vector4;
use softrender::projection::project_clip;
use softrender::projection::DEPTH_ONE;
use softrender::shaders::ease;
use softrender::shaders::mix;
use softrender::shaders::mix_color;
use softrender::shaders::smoothstep;
use softrender::shaders::ShaderColor;
use softrender::shaders::CHANNEL_FULL;
use softrender::fixed::ONE;

fn clip(x: i32, y: i32, z: i32, w: i32) -> Vector4 {
    Vector4 { x, y, z, w }
}

#[test]
fn points_on_or_behind_the_eye_plane_are_rejected() {
    assert_eq!(project_clip(clip(0, 0, 0, 0), 800, 600), None);
    assert_eq!(project_clip(clip(5, 5, 5, -1), 800, 600), None);
    assert_eq!(project_clip(clip(1, 2, 3, i32::MIN), 800, 600), None);
    assert!(project_clip(clip(0, 0, 0, 1), 800, 600).is_some());
}

#[test]
fn centre_of_view_maps_to_centre_of_screen() {
    assert_eq!(project_clip(clip(0, 0, 0, 65536), 800, 600), Some((400, 300, 0)));
    assert_eq!(project_clip(clip(0, 0, 0, 7), 1, 1), Some((0, 0, 0)));
}

#[test]
fn viewport_mapping_flips_y() {
    let w = 1000;
    // Left and top edges of the view volume.
    assert_eq!(project_clip(clip(-w, w, 0, w), 800, 600), Some((0, 0, 0)));
    // Right and bottom edges land one past the last pixel.
    assert_eq!(project_clip(clip(w, -w, 0, w), 800, 600), Some((800, 600, 0)));
    // Half way right and half way up.
    assert_eq!(project_clip(clip(500, 500, 0, w), 800, 600), Some((600, 150, 0)));
    // Just inside the right and bottom edges.
    assert_eq!(project_clip(clip(w - 1, -w + 1, 0, w), 800, 600), Some((799, 599, 0)));
}

#[test]
fn pixel_coordinates_round_towards_zero() {
    let w = 1000;
    // -0.4 of a pixel left of the screen still rounds to column 0.
    assert_eq!(project_clip(clip(-1001, 0, 0, w), 800, 600).unwrap().0, 0);
    assert_eq!(project_clip(clip(-1003, 0, 0, w), 800, 600).unwrap().0, -1);
    assert_eq!(project_clip(clip(0, 1001, 0, w), 800, 600).unwrap().1, 0);
    assert_eq!(project_clip(clip(0, 1004, 0, w), 800, 600).unwrap().1, -1);
    // 399.6 rounds down.
    assert_eq!(project_clip(clip(-1, 0, 0, w), 800, 600).unwrap().0, 399);
}

#[test]
fn depth_is_z_over_w_rounded_down() {
    assert_eq!(DEPTH_ONE, 1 << 20);
    assert_eq!(project_clip(clip(0, 0, 5, 5), 800, 600).unwrap().2, DEPTH_ONE);
    assert_eq!(project_clip(clip(0, 0, -5, 5), 800, 600).unwrap().2, -DEPTH_ONE);
    assert_eq!(project_clip(clip(0, 0, 1, 3), 800, 600).unwrap().2, 349525);
    assert_eq!(project_clip(clip(0, 0, -1, 3), 800, 600).unwrap().2, -349526);
    assert_eq!(project_clip(clip(0, 0, 1, 2), 800, 600).unwrap().2, DEPTH_ONE / 2);
}

#[test]
fn projection_saturates_at_the_ends_of_the_range() {
    assert_eq!(
        project_clip(clip(i32::MAX, i32::MIN, i32::MAX, 1), 800, 600),
        Some((i32::MAX, i32::MAX, i32::MAX))
    );
    assert_eq!(
        project_clip(clip(i32::MIN, i32::MAX, i32::MIN, 1), 800, 600),
        Some((i32::MIN, i32::MIN, i32::MIN))
    );
    assert_eq!(
        project_clip(clip(i32::MAX, i32::MAX, 0, i32::MAX), usize::MAX, usize::MAX),
        Some((i32::MAX, 0, 0))
    );
}

#[test]
fn visible_points_land_on_the_screen() {
    let w = 977;
    for x in [-w, -500, -1, 0, 1, 333, w - 1] {
        for y in [-w + 1, -500, -1, 0, 1, 333, w] {
            let (sx, sy, _) = project_clip(clip(x, y, 0, w), 800, 600).unwrap();
            assert!(sx >= 0 && sx < 800);
            assert!(sy >= 0 && sy < 600);
            // The pixel holds the exact image of the point.
            let exact_x = (x as i64 + w as i64) * 800;
            assert!(sx as i64 * 2 * w as i64 <= exact_x);
            assert!(exact_x < (sx as i64 + 1) * 2 * w as i64);
            let exact_y = (w as i64 - y as i64) * 600;
            assert!(sy as i64 * 2 * w as i64 <= exact_y);
            assert!(exact_y < (sy as i64 + 1) * 2 * w as i64);
        }
    }
}

#[test]
fn screen_points_can_be_taken_back() {
    let w: i64 = 977;
    let one = DEPTH_ONE as i64;
    for x in [-977, -500, -1, 0, 333, 976] {
        for y in [-976, -1, 0, 500, 977] {
            for z in [-977, -400, 0, 1, 976, 977] {
                let (sx, sy, d) = project_clip(clip(x, y, z, w as i32), 800, 600).unwrap();
                let (sx, sy, d) = (sx as i64, sy as i64, d as i64);
                assert!(0 <= sx && sx < 800 && 0 <= sy && sy < 600);
                assert!(-one <= d && d <= one);
                // The box the screen point stands for holds the exact image.
                assert!(sx * 2 * w <= (x as i64 + w) * 800 && (x as i64 + w) * 800 < (sx + 1) * 2 * w);
                assert!(sy * 2 * w <= (w - y as i64) * 600 && (w - y as i64) * 600 < (sy + 1) * 2 * w);
                assert!(d * w <= z as i64 * one && (z as i64) * one < (d + 1) * w);
            }
        }
    }
}

#[test]
fn mix_interpolates_linearly() {
    assert_eq!(ONE, 65536);
    assert_eq!(mix(0, ONE, ONE / 2), ONE / 2);
    assert_eq!(mix(100, 200, 0), 100);
    assert_eq!(mix(100, 200, ONE), 200);
    assert_eq!(mix(-100, 100, ONE / 4), -50);
    assert_eq!(mix(i32::MIN, i32::MAX, 0), i32::MIN);
    assert_eq!(mix(i32::MIN, i32::MAX, ONE), i32::MAX);
}

#[test]
fn mix_rounds_down_and_extrapolates() {
    assert_eq!(mix(0, 1, ONE / 2), 0);
    assert_eq!(mix(0, -1, ONE / 2), -1);
    assert_eq!(mix(0, 100, 2 * ONE), 200);
    assert_eq!(mix(0, 100, -ONE), -100);
    assert_eq!(mix(i32::MAX, i32::MIN, -ONE), i32::MAX);
    assert_eq!(mix(i32::MIN, i32::MAX, -ONE), i32::MIN);
}

#[test]
fn mix_stays_between_its_ends() {
    for t in [0, 1, 100, ONE / 3, ONE / 2, ONE - 1, ONE] {
        for (a, b) in [(0, 10), (10, 0), (-7, 7), (i32::MIN, i32::MAX), (5, 5)] {
            let m = mix(a, b, t);
            assert!(a.min(b) <= m && m <= a.max(b));
        }
    }
}

#[test]
fn mix_color_blends_every_channel() {
    let a = ShaderColor::new(0, 1000, -400, CHANNEL_FULL);
    let b = ShaderColor::new(CHANNEL_FULL, 3000, 400, 0);
    assert_eq!(mix_color(a, b, 0), a);
    assert_eq!(mix_color(a, b, ONE), b);
    assert_eq!(
        mix_color(a, b, ONE / 4),
        ShaderColor::new(CHANNEL_FULL / 4, 1500, -200, 3 * CHANNEL_FULL / 4)
    );
}

#[test]
fn ease_is_the_cubic_smooth_step() {
    assert_eq!(ease(0), 0);
    assert_eq!(ease(ONE), ONE);
    assert_eq!(ease(ONE / 2), ONE / 2);
    assert_eq!(ease(ONE / 4), 10240);
    assert_eq!(ease(1), 0);
    assert_eq!(ease(ONE - 1), ONE - 1);
}

#[test]
fn smoothstep_eases_between_the_edges() {
    assert_eq!(smoothstep(0, 1000, 500), ONE / 2);
    assert_eq!(smoothstep(0, 1000, 0), 0);
    assert_eq!(smoothstep(0, 1000, -5), 0);
    assert_eq!(smoothstep(0, 1000, 1000), ONE);
    assert_eq!(smoothstep(0, 1000, 2000), ONE);
    // A quarter of the way: 3/16 - 2/64 = 5/32.
    assert_eq!(smoothstep(0, 1000, 250), ONE / 32 * 5);
    assert_eq!(smoothstep(i32::MIN, i32::MAX, i32::MAX), ONE);
    assert_eq!(smoothstep(i32::MIN, i32::MAX, i32::MIN), 0);
}

#[test]
fn smoothstep_with_reversed_edges_falls() {
    // Three quarters of the way from 1000 down to 0: 27/16 - 54/64 = 27/32.
    assert_eq!(smoothstep(1000, 0, 250), ONE / 32 * 27);
    assert_eq!(smoothstep(1000, 0, 1000), 0);
    assert_eq!(smoothstep(1000, 0, 1500), 0);
    assert_eq!(smoothstep(1000, 0, 0), ONE);
    assert_eq!(smoothstep(1000, 0, -3), ONE);
}

#[test]
fn smoothstep_between_equal_edges_is_sharp() {
    assert_eq!(smoothstep(5, 5, 4), 0);
    assert_eq!(smoothstep(5, 5, 5), ONE);
    assert_eq!(smoothstep(5, 5, 6), ONE);
}

#[test]
fn polygon_is_cut_into_a_fan() {
    assert_eq!(triangulate_face(&vec![5, 6, 7, 8, 9]), vec![(5, 6, 7), (5, 7, 8), (5, 8, 9)]);
    assert_eq!(triangulate_face(&vec![2, 1, 0]), vec![(2, 1, 0)]);
    assert_eq!(triangulate_face(&vec![1, 2]), vec![]);
    assert_eq!(triangulate_face(&vec![1]), vec![]);
    assert_eq!(triangulate_face(&vec![]), vec![]);
}
