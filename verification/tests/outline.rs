use driftwm::geometry::{Point, Rect, Size};
use driftwm::outline::{
    Color, OtherOutput, OutlineBufferKey, OutlineCache, build_output_outline_elements,
    outline_buffer, outline_edge_strips,
};

const WHITE: Color = Color {
    r: 0xFF,
    g: 0xFF,
    b: 0xFF,
    a: 0xFF,
};

fn rect(x: i32, y: i32, w: i32, h: i32) -> Rect {
    Rect::new(Point::new(x, y), Size::new(w, h))
}

fn strips(outline: Rect, viewport: Size) -> Vec<Rect> {
    outline_edge_strips(outline, viewport, 1)
}

#[test]
fn a_fully_visible_outline_yields_four_edges() {
    let viewport = Size::new(1920, 1080);
    let outline = rect(100, 200, 400, 300);

    let edges = strips(outline, viewport);
    assert_eq!(edges.len(), 4);
    assert_eq!(edges[0], rect(100, 200, 400, 1));
    assert_eq!(edges[1], rect(100, 499, 400, 1));
    assert_eq!(edges[2], rect(100, 200, 1, 300));
    assert_eq!(edges[3], rect(499, 200, 1, 300));
}

#[test]
fn edges_are_clipped_to_the_viewport_and_offscreen_ones_dropped() {
    let viewport = Size::new(1920, 1080);
    // Hangs off the left edge: the left edge is gone entirely, the
    // horizontal ones survive as their visible remainder.
    let outline = rect(-50, 200, 400, 300);

    let edges = strips(outline, viewport);
    assert_eq!(edges.len(), 3);
    assert_eq!(edges[0], rect(0, 200, 350, 1));
    assert_eq!(edges[1], rect(0, 499, 350, 1));
    assert_eq!(edges[2], rect(349, 200, 1, 300));
}

/// The reason the cache key excludes position: panning moves every strip
/// but changes no strip's extent, so the buffers — and with them the
/// element `Id`s the blur hashes — must survive the pan.
#[test]
fn panning_a_visible_outline_reuses_every_buffer() {
    let viewport = Size::new(1920, 1080);
    let mut cache = OutlineCache::new();

    for offset in 0..20 {
        let outline = rect(100 + offset, 200 + offset, 400, 300);
        for strip in strips(outline, viewport) {
            outline_buffer(&mut cache, WHITE, strip);
        }
    }

    assert_eq!(
        cache.len(),
        2,
        "one buffer per distinct extent: the horizontal pair and the vertical pair"
    );
}

#[test]
fn a_different_extent_or_colour_gets_its_own_buffer() {
    let mut cache = OutlineCache::new();
    let strip = rect(0, 0, 400, 1);

    let first = outline_buffer(&mut cache, WHITE, strip);
    outline_buffer(&mut cache, WHITE, rect(0, 0, 399, 1));
    assert_eq!(cache.len(), 2, "a clipped strip is a different buffer");

    let black = Color {
        r: 0,
        g: 0,
        b: 0,
        a: 0xFF,
    };
    outline_buffer(&mut cache, black, strip);
    assert_eq!(
        cache.len(),
        3,
        "colour is baked into the pixels, so it keys"
    );
    let id = cache.buffers[first].id;
    let again = outline_buffer(&mut cache, WHITE, rect(7, 7, 400, 1));
    assert_eq!(cache.buffers[again].id, id);
}

#[test]
fn buffers_that_no_strip_needs_are_dropped() {
    let mut cache = OutlineCache::new();
    outline_buffer(&mut cache, WHITE, rect(0, 0, 3, 1));
    outline_buffer(&mut cache, WHITE, rect(0, 0, 4, 1));
    cache.retain(&[OutlineBufferKey {
        color: WHITE,
        w: 4,
        h: 1,
    }]);
    assert_eq!(cache.len(), 1);
    assert_eq!(cache.buffers[0].key.w, 4);
}

#[test]
fn an_output_outlines_the_others_only() {
    let other = |itself: bool, visually_fullscreen: bool| OtherOutput {
        itself,
        visually_fullscreen,
        outline: rect(10, 10, 50, 50),
    };
    let viewport = Size::new(200, 200);
    let build = |others: &[OtherOutput], thickness: i32, transparent: bool| {
        build_output_outline_elements(others, viewport, thickness, transparent).len()
    };
    assert_eq!(build(&[other(false, false)], 2, false), 4);
    assert_eq!(build(&[other(true, false), other(false, true)], 2, false), 0);
    assert_eq!(build(&[other(false, false)], 0, false), 0);
    assert_eq!(build(&[other(false, false)], 2, true), 0);
}
