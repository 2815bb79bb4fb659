use driftwm::elements::{
    CornerSquares, GlesBridge, TileArea, TrimmedElement, corner_cutouts, rounded_damage,
    rounded_opaque_regions, texel_src,
};
use driftwm::geometry::{Point, Rect, Size};

fn rect(x: i32, y: i32, w: i32, h: i32) -> Rect {
    Rect::new(Point::new(x, y), Size::new(w, h))
}

#[test]
fn trimmed_element_reports_and_clips_to_its_dst() {
    let inner = rect(16, 16, 2540, 1580);
    let dst = Rect::new(inner.loc, Size::new(2539, 1579));
    let element = TrimmedElement::from_element(inner, dst);

    assert_eq!(element.geometry(), dst);

    let regions = element.opaque_regions(&[Rect::from_size(inner.size)]);
    assert_eq!(regions, vec![Rect::from_size(dst.size)]);
}

#[test]
fn trimmed_damage_is_rebased_not_clipped() {
    let inner = rect(20, 30, 100, 100);
    let dst = rect(22, 31, 90, 90);
    assert_eq!(
        TrimmedElement::from_element(inner, dst).damage_since(&[rect(0, 0, 100, 100)]),
        vec![rect(-2, -1, 100, 100)]
    );
}

#[test]
fn texel_src_spans_the_whole_texture_not_the_destination() {
    let logical = Size::new(800, 600);
    let scale = 2.0;
    let texels = Size::new(
        (logical.w as f64 * scale) as i32,
        (logical.h as f64 * scale) as i32,
    );

    let src = texel_src(texels);
    assert_eq!(src.loc, Point::new(0, 0));
    assert_eq!(
        src.size.w as f64, texels.w as f64,
        "src covers every texel across"
    );
    assert_eq!(
        src.size.h as f64, texels.h as f64,
        "src covers every texel down"
    );
    assert_ne!(
        src.size.w as f64, logical.w as f64,
        "src must not collapse to the destination extent — that is the bug"
    );
}

#[test]
fn texel_src_handles_a_fractional_scale() {
    let src = texel_src(Size::new(1200, 900));
    assert_eq!(src.size.w as f64, 1200.0);
    assert_eq!(src.size.h as f64, 900.0);
}

#[test]
fn a_tile_that_stays_put_does_not_change() {
    let mut tile = TileArea::new(rect(0, 0, 10, 10), None);
    tile.resize(rect(0, 0, 10, 10), Some(Vec::new()));
    assert_eq!(tile.commit, 0);
    tile.resize(rect(0, 0, 10, 10), Some(vec![rect(0, 0, 5, 5)]));
    assert_eq!(tile.commit, 1);
    tile.resize(rect(1, 0, 10, 10), Some(vec![rect(0, 0, 5, 5)]));
    tile.update_uniforms();
    assert_eq!(tile.commit, 3);
    tile.commit = u64::MAX;
    tile.update_uniforms();
    assert_eq!(tile.commit, 0);
    assert_eq!(GlesBridge(7).0, 7);
}

#[test]
fn rounded_corners_and_the_rim_are_not_opaque() {
    let corners = CornerSquares {
        top_left: 3,
        top_right: 0,
        bottom_right: 0,
        bottom_left: 0,
    };
    let whole = [rect(0, 0, 20, 10)];
    let out = rounded_opaque_regions(&whole, rect(5, 5, 20, 10), Point::new(5, 5), corners);
    let opaque = |x: i32, y: i32| out.iter().any(|r| r.contains(Point::new(x, y)));
    assert!(!opaque(0, 5), "rim");
    assert!(!opaque(19, 5), "rim");
    assert!(!opaque(1, 1) && !opaque(3, 3), "corner");
    assert!(opaque(4, 1) && opaque(1, 4) && opaque(18, 8));

    let none = CornerSquares {
        top_left: 0,
        top_right: 0,
        bottom_right: 0,
        bottom_left: 0,
    };
    assert_eq!(
        rounded_opaque_regions(&whole, rect(5, 5, 20, 10), Point::new(5, 5), none),
        vec![rect(1, 1, 18, 8)]
    );
    assert!(rounded_opaque_regions(&whole, rect(0, 0, 2, 10), Point::new(0, 0), none).is_empty());
    assert_eq!(
        rounded_damage(&[rect(-5, 0, 10, 4), rect(50, 0, 1, 1)], rect(5, 5, 20, 10), Point::new(5, 5)),
        vec![rect(0, 0, 5, 4)]
    );
}

#[test]
fn cutouts_sit_in_the_corners() {
    let corners = CornerSquares {
        top_left: 1,
        top_right: 2,
        bottom_right: 3,
        bottom_left: 4,
    };
    assert_eq!(
        corner_cutouts(Size::new(100, 50), corners),
        vec![
            rect(0, 0, 1, 1),
            rect(98, 0, 2, 2),
            rect(97, 47, 3, 3),
            rect(0, 46, 4, 4)
        ]
    );
}
