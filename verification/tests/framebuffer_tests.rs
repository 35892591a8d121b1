use softrender::framebuffer::rgb_to_u32;
use softrender::framebuffer::Framebuffer;
use softrender::framebuffer::BACKGROUND;
use softrender::framebuffer::DEPTH_FAR;

#[test]
fn rgb_packs_channels() {
    assert_eq!(rgb_to_u32(0, 0, 0), 0);
    assert_eq!(rgb_to_u32(255, 255, 255), 0x00FF_FFFF);
    assert_eq!(rgb_to_u32(1, 2, 3), 0x0001_0203);
    assert_eq!(rgb_to_u32(5, 10, 30), BACKGROUND);
    assert_eq!(rgb_to_u32(100, 140, 200), 100 * 65536 + 140 * 256 + 200);
}

#[test]
fn new_framebuffer_is_blank() {
    let fb = Framebuffer::new(4, 3);
    assert_eq!(fb.width, 4);
    assert_eq!(fb.height, 3);
    assert_eq!(fb.buffer.len(), 12);
    assert_eq!(fb.depth_buffer.len(), 12);
    assert!(fb.buffer.iter().all(|&c| c == BACKGROUND));
    assert!(fb.depth_buffer.iter().all(|&d| d == DEPTH_FAR));
    assert_eq!(fb.get_buffer().len(), 12);
}

#[test]
fn empty_framebuffer_ignores_writes() {
    let mut fb = Framebuffer::new(0, 5);
    assert_eq!(fb.buffer.len(), 0);
    fb.set_pixel(0, 0, 7);
    fb.set_pixel_with_depth(0, 0, 1, 7);
    assert_eq!(fb.buffer.len(), 0);
}

#[test]
fn set_pixel_writes_row_major() {
    let mut fb = Framebuffer::new(4, 3);
    fb.set_pixel(1, 2, 0xABCDEF);
    assert_eq!(fb.buffer[2 * 4 + 1], 0xABCDEF);
    assert_eq!(fb.depth_buffer[2 * 4 + 1], DEPTH_FAR);
    assert_eq!(fb.buffer.iter().filter(|&&c| c != BACKGROUND).count(), 1);
    assert_eq!(fb.cell_of(1, 2), Some(9));
}

#[test]
fn out_of_range_writes_are_ignored() {
    let mut fb = Framebuffer::new(4, 3);
    fb.set_pixel(-1, 0, 1);
    fb.set_pixel(0, -1, 1);
    fb.set_pixel(4, 0, 1);
    fb.set_pixel(0, 3, 1);
    fb.set_pixel(i32::MAX, i32::MAX, 1);
    fb.set_pixel(i32::MIN, i32::MIN, 1);
    fb.set_pixel_with_depth(4, 2, 0, 1);
    fb.set_pixel_with_depth(-1, -1, 0, 1);
    assert!(fb.buffer.iter().all(|&c| c == BACKGROUND));
    assert!(fb.depth_buffer.iter().all(|&d| d == DEPTH_FAR));
    assert_eq!(fb.cell_of(4, 0), None);
    assert_eq!(fb.cell_of(0, 3), None);
    assert_eq!(fb.cell_of(-1, 0), None);
}

#[test]
fn depth_test_is_strict() {
    let mut fb = Framebuffer::new(2, 2);
    fb.set_pixel_with_depth(1, 1, 100, 0x111111);
    assert_eq!(fb.buffer[3], 0x111111);
    assert_eq!(fb.depth_buffer[3], 100);
    // A tie keeps the pixel that is there.
    fb.set_pixel_with_depth(1, 1, 100, 0x222222);
    assert_eq!(fb.buffer[3], 0x111111);
    assert_eq!(fb.depth_buffer[3], 100);
    // Deeper loses.
    fb.set_pixel_with_depth(1, 1, 101, 0x333333);
    assert_eq!(fb.buffer[3], 0x111111);
    // Nearer wins.
    fb.set_pixel_with_depth(1, 1, -5, 0x444444);
    assert_eq!(fb.buffer[3], 0x444444);
    assert_eq!(fb.depth_buffer[3], -5);
}

#[test]
fn far_depth_never_wins_on_a_blank_frame() {
    let mut fb = Framebuffer::new(2, 2);
    fb.set_pixel_with_depth(0, 0, DEPTH_FAR, 0x123456);
    assert_eq!(fb.buffer[0], BACKGROUND);
    fb.set_pixel_with_depth(0, 0, DEPTH_FAR - 1, 0x123456);
    assert_eq!(fb.buffer[0], 0x123456);
}

#[test]
fn clear_resets_both_buffers() {
    let mut fb = Framebuffer::new(3, 3);
    fb.set_pixel_with_depth(1, 1, 5, 0xFFFFFF);
    fb.set_pixel(0, 0, 0xFFFFFF);
    fb.clear();
    assert_eq!(fb.width, 3);
    assert_eq!(fb.height, 3);
    assert_eq!(fb.buffer, vec![BACKGROUND; 9]);
    assert_eq!(fb.depth_buffer, vec![DEPTH_FAR; 9]);
}

#[test]
fn colour_only_write_leaves_the_depth() {
    let mut fb = Framebuffer::new(3, 2);
    fb.set_pixel_with_depth(1, 1, 100, 0x111111);
    // Nearer: the colour changes, the depth stays.
    fb.set_pixel_if_nearer(1, 1, 99, 0x222222);
    assert_eq!(fb.buffer[4], 0x222222);
    assert_eq!(fb.depth_buffer[4], 100);
    // At the stored depth, or deeper: nothing changes.
    fb.set_pixel_if_nearer(1, 1, 100, 0x333333);
    fb.set_pixel_if_nearer(1, 1, 101, 0x333333);
    assert_eq!(fb.buffer[4], 0x222222);
    // On a blank pixel every depth but the farthest is nearer.
    fb.set_pixel_if_nearer(0, 0, DEPTH_FAR, 0x444444);
    assert_eq!(fb.buffer[0], BACKGROUND);
    fb.set_pixel_if_nearer(0, 0, DEPTH_FAR - 1, 0x444444);
    assert_eq!(fb.buffer[0], 0x444444);
    assert_eq!(fb.depth_buffer[0], DEPTH_FAR);
    // Outside the frame.
    fb.set_pixel_if_nearer(3, 0, 0, 0x555555);
    fb.set_pixel_if_nearer(-1, 0, 0, 0x555555);
    fb.set_pixel_if_nearer(0, 2, 0, 0x555555);
    fb.set_pixel_if_nearer(i64::MAX, i64::MIN, 0, 0x555555);
    assert_eq!(fb.buffer.iter().filter(|&&c| c == 0x555555).count(), 0);
    assert_eq!(fb.cell_at(2, 1), Some(5));
    assert_eq!(fb.cell_at(3, 1), None);
    assert_eq!(fb.cell_at(1i64 << 40, 0), None);
}
