use vstd::prelude::*;
use crate::framebuffer::Frame;
use crate::framebuffer::Framebuffer;
use crate::matrix::Matrix4;
use crate::projection::project_vertex;
use crate::projection::screen_point;
use crate::vector::Vector3;

verus! {

/// A star of the backdrop: where in space it stands; the colour of its
/// pixel; and, for a bright star, the colour of the halo around it.
#[derive(Clone, Copy, Debug)]
pub struct Star {
    pub position: Vector3,
    pub color: u32,
    pub halo: Option<u32>,
}

/// The frame after the eight neighbours of `(x, y)` are tinted, row by row:
/// each takes the halo colour where `depth` is strictly less than its own
/// stored depth, and no depth is written.
pub open spec fn with_halo(f: Frame, x: int, y: int, depth: i32, color: u32) -> Frame {
    f.with_color_if_nearer(x - 1, y - 1, depth, color).with_color_if_nearer(
        x,
        y - 1,
        depth,
        color,
    ).with_color_if_nearer(x + 1, y - 1, depth, color).with_color_if_nearer(
        x - 1,
        y,
        depth,
        color,
    ).with_color_if_nearer(x + 1, y, depth, color).with_color_if_nearer(
        x - 1,
        y + 1,
        depth,
        color,
    ).with_color_if_nearer(x, y + 1, depth, color).with_color_if_nearer(x + 1, y + 1, depth, color)
}

/// The star projects to a pixel of the frame and is strictly nearer than
/// what the pixel holds.
pub open spec fn star_visible(f: Frame, view_proj: Matrix4, s: Star) -> bool {
    match screen_point(s.position, view_proj) {
        Some(p) => f.in_bounds(p.0 as int, p.1 as int) && p.2 < f.depth[f.index(
            p.0 as int,
            p.1 as int,
        )],
        None => false,
    }
}

/// The frame after one star is drawn. A visible star writes its colour and
/// its depth at its own pixel, and then its halo, if it has one; a star that
/// is not visible draws nothing, halo included.
pub open spec fn draw_star(f: Frame, view_proj: Matrix4, s: Star) -> Frame {
    if star_visible(f, view_proj, s) {
        let p = screen_point(s.position, view_proj).unwrap();
        let lit = f.with_pixel_at_depth(p.0 as int, p.1 as int, p.2, s.color);
        match s.halo {
            Some(h) => with_halo(lit, p.0 as int, p.1 as int, p.2, h),
            None => lit,
        }
    } else {
        f
    }
}

/// The frame after the stars are drawn one after the other.
pub open spec fn draw_stars(f: Frame, view_proj: Matrix4, stars: Seq<Star>) -> Frame
    decreases stars.len(),
{
    if stars.len() == 0 {
        f
    } else {
        draw_star(draw_stars(f, view_proj, stars.drop_last()), view_proj, stars.last())
    }
}

/// Draws one star of the backdrop.
pub fn render_star(framebuffer: &mut Framebuffer, view_proj: &Matrix4, star: &Star)
    requires
        old(framebuffer).wf(),
    ensures
        final(framebuffer).wf(),
        final(framebuffer)@ == draw_star(old(framebuffer)@, *view_proj, *star),
{
    if let Some(p) = project_vertex(&star.position, view_proj) {
        if let Some(idx) = framebuffer.cell_of(p.0, p.1) {
            if p.2 < framebuffer.depth_buffer[idx] {
                framebuffer.set_pixel_with_depth(p.0, p.1, p.2, star.color);
                if let Some(h) = star.halo {
                    let x: i64 = p.0 as i64;
                    let y: i64 = p.1 as i64;
                    framebuffer.set_pixel_if_nearer(x - 1, y - 1, p.2, h);
                    framebuffer.set_pixel_if_nearer(x, y - 1, p.2, h);
                    framebuffer.set_pixel_if_nearer(x + 1, y - 1, p.2, h);
                    framebuffer.set_pixel_if_nearer(x - 1, y, p.2, h);
                    framebuffer.set_pixel_if_nearer(x + 1, y, p.2, h);
                    framebuffer.set_pixel_if_nearer(x - 1, y + 1, p.2, h);
                    framebuffer.set_pixel_if_nearer(x, y + 1, p.2, h);
                    framebuffer.set_pixel_if_nearer(x + 1, y + 1, p.2, h);
                }
            }
        }
    }
}

/// Draws the starfield backdrop, star by star in the order given.
pub fn render_skybox(framebuffer: &mut Framebuffer, view_proj: &Matrix4, stars: &Vec<Star>)
    requires
        old(framebuffer).wf(),
    ensures
        final(framebuffer).wf(),
        final(framebuffer)@ == draw_stars(old(framebuffer)@, *view_proj, stars@),
{
    let ghost f0 = framebuffer@;
    let mut k: usize = 0;
    while k < stars.len()
        invariant
            k <= stars.len(),
            framebuffer.wf(),
            framebuffer@ == draw_stars(f0, *view_proj, stars@.take(k as int)),
        decreases stars.len() - k,
    {
        proof {
            assert(stars@.take(k + 1).drop_last() =~= stars@.take(k as int));
            assert(stars@.take(k + 1).last() == stars@[k as int]);
        }
        render_star(framebuffer, view_proj, &stars[k]);
        k += 1;
    }
    proof {
        assert(stars@.take(stars.len() as int) =~= stars@);
    }
}

} // verus!
