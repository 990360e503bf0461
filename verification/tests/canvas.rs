//! Growable canvases: growth, preservation, the cap, and sampling.

use pog_paint::geom::{IVec2, Rect};
use pog_paint::heightmap::Heightmap;
use pog_paint::texture::{Rgba8, Texture, MAX_SIZE};

fn rect(x0: i32, y0: i32, x1: i32, y1: i32) -> Rect {
    Rect { min: IVec2 { x: x0, y: y0 }, max: IVec2 { x: x1, y: y1 } }
}

const RED: Rgba8 = Rgba8 { r: 255, g: 0, b: 0, a: 255 };
const CLEAR: Rgba8 = Rgba8 { r: 0, g: 0, b: 0, a: 0 };

#[test]
fn growth_is_union_of_requests() {
    let mut t = Texture::new();
    assert_eq!(t.bounding_box(), None);
    assert!(t.ensure_bounds(rect(0, 0, 4, 4)));
    assert_eq!(t.bounding_box(), Some(rect(0, 0, 4, 4)));
    assert!(t.ensure_bounds(rect(8, 8, 10, 12)));
    assert_eq!(t.bounding_box(), Some(rect(0, 0, 10, 12)));
    // A request inside the current bounds changes nothing.
    assert!(t.ensure_bounds(rect(1, 1, 2, 2)));
    assert_eq!(t.bounding_box(), Some(rect(0, 0, 10, 12)));
}

#[test]
fn growth_covers_negative_coordinates() {
    let mut t = Texture::new();
    assert!(t.ensure_bounds(rect(-3, -2, 2, 2)));
    assert_eq!(t.bounding_box(), Some(rect(-3, -2, 2, 2)));
    assert!(t.draw(rect(-3, -2, -2, -1), RED));
    assert_eq!(t.color_at(IVec2 { x: -3, y: -2 }), RED);
    assert_eq!(t.color_at(IVec2 { x: -2, y: -2 }), CLEAR);
}

#[test]
fn growth_preserves_content() {
    let mut t = Texture::new();
    // Paint a single pixel, then grow to a disjoint region elsewhere.
    assert!(t.draw(rect(1, 1, 2, 2), RED));
    assert_eq!(t.color_at(IVec2 { x: 1, y: 1 }), RED);
    assert!(t.ensure_bounds(rect(100, 100, 120, 110)));
    assert_eq!(t.bounding_box(), Some(rect(1, 1, 120, 110)));
    assert_eq!(t.color_at(IVec2 { x: 1, y: 1 }), RED);
    // Newly covered area reads as transparent black.
    assert_eq!(t.color_at(IVec2 { x: 110, y: 105 }), CLEAR);
    assert_eq!(t.color_at(IVec2 { x: 2, y: 1 }), CLEAR);
}

#[test]
fn cap_refuses_oversized_growth() {
    let mut t = Texture::new();
    let huge = rect(0, 0, (MAX_SIZE as i32) + 1, 5);
    assert!(!t.ensure_bounds(huge));
    assert_eq!(t.bounding_box(), None);
    // At the cap itself growth is still accepted.
    let mut t2 = Texture::new();
    assert!(t2.ensure_bounds(rect(0, 0, MAX_SIZE as i32, 1)));
    assert_eq!(t2.bounding_box(), Some(rect(0, 0, MAX_SIZE as i32, 1)));
    // Growing it past the cap afterwards is refused and changes nothing.
    assert!(!t2.ensure_bounds(rect(0, 0, MAX_SIZE as i32, (MAX_SIZE as i32) + 1)));
    assert_eq!(t2.bounding_box(), Some(rect(0, 0, MAX_SIZE as i32, 1)));
}

#[test]
fn refused_growth_clips_paint() {
    let mut t = Texture::new();
    assert!(t.ensure_bounds(rect(0, 0, 4, 4)));
    // This stroke would need a canvas wider than the cap: the growth is
    // refused, the paint lands only on the existing bounds.
    let wide = rect(0, 0, 5000, 1);
    assert!(!t.draw(wide, RED));
    assert_eq!(t.bounding_box(), Some(rect(0, 0, 4, 4)));
    assert_eq!(t.color_at(IVec2 { x: 3, y: 0 }), RED);
    assert_eq!(t.color_at(IVec2 { x: 3, y: 1 }), CLEAR);
    assert_eq!(t.color_at(IVec2 { x: 10, y: 0 }), CLEAR);
}

#[test]
fn sampling_outside_is_transparent() {
    let t = Texture::new();
    assert_eq!(t.color_at(IVec2 { x: 0, y: 0 }), CLEAR);
    let mut t = Texture::new();
    assert!(t.draw(rect(0, 0, 2, 2), RED));
    assert_eq!(t.color_at(IVec2 { x: -1, y: 0 }), CLEAR);
    assert_eq!(t.color_at(IVec2 { x: 2, y: 0 }), CLEAR);
}

#[test]
fn heightmap_get_and_set() {
    let mut h = Heightmap::new();
    assert_eq!(h.bounding_box(), None);
    assert_eq!(h.get(IVec2 { x: 0, y: 0 }), None);
    assert!(h.ensure_bounds(rect(0, 0, 3, 3)));
    assert_eq!(h.bounding_box(), Some(rect(0, 0, 3, 3)));
    // New area holds the zero height.
    assert_eq!(h.get(IVec2 { x: 2, y: 2 }), Some(0));
    let bits = 2.5f32.to_bits();
    assert!(h.set(IVec2 { x: 1, y: 2 }, bits));
    assert_eq!(h.get(IVec2 { x: 1, y: 2 }), Some(bits));
    assert_eq!(h.get(IVec2 { x: 2, y: 2 }), Some(0));
    // A write outside the bounds is refused, not grown for.
    assert!(!h.set(IVec2 { x: 5, y: 5 }, bits));
    assert_eq!(h.bounding_box(), Some(rect(0, 0, 3, 3)));
}

#[test]
fn heightmap_growth_preserves_samples() {
    let mut h = Heightmap::new();
    assert!(h.ensure_bounds(rect(0, 0, 2, 2)));
    let bits = 7.25f32.to_bits();
    assert!(h.set(IVec2 { x: 1, y: 1 }, bits));
    assert!(h.ensure_bounds(rect(-4, -4, 0, 0)));
    assert_eq!(h.bounding_box(), Some(rect(-4, -4, 2, 2)));
    assert_eq!(h.get(IVec2 { x: 1, y: 1 }), Some(bits));
    assert_eq!(h.get(IVec2 { x: -4, y: -4 }), Some(0));
}

#[test]
fn heightmap_cap_refuses_oversized_growth() {
    let mut h = Heightmap::new();
    assert!(!h.ensure_bounds(rect(0, 0, 10, (MAX_SIZE as i32) + 7)));
    assert_eq!(h.bounding_box(), None);
}

#[test]
fn draw_reports_whether_area_is_covered() {
    let mut t = Texture::new();
    assert!(t.draw(rect(0, 0, 8, 8), RED));
    assert!(!t.draw(rect(0, 0, (MAX_SIZE as i32) + 1, 2), RED));
}
