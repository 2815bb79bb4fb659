//! What the elements of a frame report of themselves: when they have changed,
//! which pixels changed, and which are opaque. Rectangles are in physical
//! pixels.

use crate::geometry::{Point, Rect, Size};
use crate::region::{all_valid, covered, is_difference, subtract_rects_many};
use vstd::prelude::*;

verus! {

/// An element that only the primary renderer draws, carried to others.
#[derive(Clone, Debug)]
pub struct GlesBridge<E>(pub E);

/// The part of a texture that is sampled when all of it is shown: every texel,
/// whatever the extent it is shown at.
pub fn texel_src(texels: Size) -> (src: Rect)
    ensures
        src == (Rect { loc: Point { x: 0, y: 0 }, size: texels }),
{
    Rect::from_size(texels)
}

fn same_rects(a: &Vec<Rect>, b: &Vec<Rect>) -> (r: bool)
    ensures
        r == (a@ == b@),
{
    if a.len() != b.len() {
        return false;
    }
    let mut i: usize = 0;
    while i < a.len()
        invariant
            i <= a@.len() == b@.len(),
            forall|k: int| 0 <= k < i ==> a@[k] == b@[k],
        decreases a.len() - i,
    {
        if a[i] != b[i] {
            return false;
        }
        i = i + 1;
    }
    assert(a@ =~= b@);
    true
}

/// Where a background tile is drawn, and how often it has changed.
pub struct TileArea {
    pub area: Rect,
    pub opaque_regions: Vec<Rect>,
    /// Counts changes; wraps around.
    pub commit: u64,
}

pub open spec fn next_commit(commit: u64) -> u64 {
    if commit == u64::MAX {
        0
    } else {
        (commit + 1) as u64
    }
}

impl TileArea {
    pub fn new(area: Rect, opaque_regions: Option<Vec<Rect>>) -> (t: TileArea)
        ensures
            t.area == area,
            t.opaque_regions@ == match opaque_regions {
                Some(v) => v@,
                None => Seq::empty(),
            },
            t.commit == 0,
    {
        TileArea {
            area,
            opaque_regions: match opaque_regions {
                Some(v) => v,
                None => Vec::new(),
            },
            commit: 0,
        }
    }

    /// Moves the tile. That counts as a change only if it is one.
    pub fn resize(&mut self, area: Rect, opaque_regions: Option<Vec<Rect>>)
        ensures
            ({
                let regions = match opaque_regions {
                    Some(v) => v@,
                    None => Seq::empty(),
                };
                let same = old(self).area == area && old(self).opaque_regions@ == regions;
                &&& final(self).area == area
                &&& final(self).opaque_regions@ == regions
                &&& final(self).commit == if same {
                    old(self).commit
                } else {
                    next_commit(old(self).commit)
                }
            }),
    {
        let regions = match opaque_regions {
            Some(v) => v,
            None => Vec::new(),
        };
        if self.area != area || !same_rects(&self.opaque_regions, &regions) {
            self.area = area;
            self.opaque_regions = regions;
            self.commit = self.commit.wrapping_add(1);
        }
    }

    /// Takes note of new shader parameters. They always count as a change.
    pub fn update_uniforms(&mut self)
        ensures
            *final(self) == (TileArea { commit: next_commit(old(self).commit), ..*old(self) }),
    {
        self.commit = self.commit.wrapping_add(1);
    }
}

/// A rectangle moved by `(dx, dy)`.
pub open spec fn shifted(r: Rect, dx: int, dy: int) -> Rect {
    Rect { loc: Point { x: (r.loc.x + dx) as i32, y: (r.loc.y + dy) as i32 }, size: r.size }
}

/// A moved rectangle's place fits the coordinates' type.
pub open spec fn shift_fits(r: Rect, dx: int, dy: int) -> bool {
    &&& i32::MIN <= r.loc.x + dx <= i32::MAX
    &&& i32::MIN <= r.loc.y + dy <= i32::MAX
}

pub open spec fn shifts_fit(rects: Seq<Rect>, dx: int, dy: int) -> bool {
    forall|i: int| 0 <= i < rects.len() ==> shift_fits(#[trigger] rects[i], dx, dy)
}

fn shift(r: Rect, dx: i64, dy: i64) -> (s: Rect)
    requires
        shift_fits(r, dx as int, dy as int),
        -0x1_0000_0000 <= dx <= 0x1_0000_0000,
        -0x1_0000_0000 <= dy <= 0x1_0000_0000,
    ensures
        s == shifted(r, dx as int, dy as int),
{
    Rect {
        loc: Point { x: (r.loc.x as i64 + dx) as i32, y: (r.loc.y as i64 + dy) as i32 },
        size: r.size,
    }
}

/// The part of an opaque region that is in `dst`, measured from `dst`. The
/// region is measured from the element's own rectangle.
pub open spec fn trimmed_region(r: Rect, inner: Rect, dst: Rect) -> Option<Rect> {
    match shifted(r, inner.loc.x as int, inner.loc.y as int).clip(dst) {
        Some(c) => Some(shifted(c, -dst.loc.x, -dst.loc.y)),
        None => None,
    }
}

/// The first `n` opaque regions, trimmed.
pub open spec fn trimmed_regions(regions: Seq<Rect>, inner: Rect, dst: Rect, n: int) -> Seq<Rect>
    decreases n,
{
    if n <= 0 {
        Seq::empty()
    } else {
        let init = trimmed_regions(regions, inner, dst, n - 1);
        match trimmed_region(regions[n - 1], inner, dst) {
            Some(r) => init.push(r),
            None => init,
        }
    }
}

/// An element that is drawn into `dst` in place of its own rectangle.
#[derive(Clone, Copy, Debug, PartialEq, Eq, Structural)]
pub struct TrimmedElement {
    pub inner: Rect,
    pub dst: Rect,
}

impl TrimmedElement {
    pub fn from_element(inner: Rect, dst: Rect) -> (e: TrimmedElement)
        ensures
            e == (TrimmedElement { inner, dst }),
    {
        TrimmedElement { inner, dst }
    }

    /// The rectangle it reports: the one it is drawn into.
    pub fn geometry(&self) -> (r: Rect)
        ensures
            r == self.dst,
    {
        self.dst
    }

    /// From where its own rectangle starts to where it is drawn.
    pub open spec fn offset(self) -> (int, int) {
        (self.inner.loc.x - self.dst.loc.x, self.inner.loc.y - self.dst.loc.y)
    }

    /// Its damage, measured from `dst`. It is not clipped: to repaint too much
    /// does no harm.
    pub fn damage_since(&self, damage: &[Rect]) -> (out: Vec<Rect>)
        requires
            shifts_fit(damage@, self.offset().0, self.offset().1),
        ensures
            out@ == damage@.map_values(|r: Rect| shifted(r, self.offset().0, self.offset().1)),
    {
        let dx: i64 = self.inner.loc.x as i64 - self.dst.loc.x as i64;
        let dy: i64 = self.inner.loc.y as i64 - self.dst.loc.y as i64;
        let ghost move_by = |r: Rect| shifted(r, self.offset().0, self.offset().1);
        let mut out: Vec<Rect> = Vec::new();
        let mut i: usize = 0;
        while i < damage.len()
            invariant
                i <= damage@.len(),
                (dx as int, dy as int) == self.offset(),
                -0x1_0000_0000 <= dx <= 0x1_0000_0000,
                -0x1_0000_0000 <= dy <= 0x1_0000_0000,
                move_by == (|r: Rect| shifted(r, self.offset().0, self.offset().1)),
                shifts_fit(damage@, self.offset().0, self.offset().1),
                out@ =~= damage@.subrange(0, i as int).map_values(move_by),
            decreases damage.len() - i,
        {
            assert(shift_fits(damage@[i as int], dx as int, dy as int));
            out.push(shift(damage[i], dx, dy));
            i = i + 1;
        }
        assert(damage@.subrange(0, i as int) =~= damage@);
        out
    }

    /// Its opaque regions, measured from `dst`. They are clipped: what is not
    /// drawn is not opaque.
    pub fn opaque_regions(&self, regions: &[Rect]) -> (out: Vec<Rect>)
        requires
            self.dst.valid(),
            shifts_fit(regions@, self.inner.loc.x as int, self.inner.loc.y as int),
        ensures
            out@ == trimmed_regions(regions@, self.inner, self.dst, regions@.len() as int),
    {
        let inner = self.inner;
        let dst = self.dst;
        let mut out: Vec<Rect> = Vec::new();
        let mut i: usize = 0;
        while i < regions.len()
            invariant
                i <= regions@.len(),
                dst.valid(),
                shifts_fit(regions@, inner.loc.x as int, inner.loc.y as int),
                out@ == trimmed_regions(regions@, inner, dst, i as int),
            decreases regions.len() - i,
        {
            assert(shift_fits(regions@[i as int], inner.loc.x as int, inner.loc.y as int));
            let r = shift(regions[i], inner.loc.x as i64, inner.loc.y as i64);
            if let Some(c) = r.intersection(dst) {
                out.push(shift(c, -(dst.loc.x as i64), -(dst.loc.y as i64)));
            }
            i = i + 1;
        }
        out
    }
}

/// The parts of the first `n` rectangles that are in another one.
pub open spec fn clipped_to(rects: Seq<Rect>, area: Rect, n: int) -> Seq<Rect>
    decreases n,
{
    if n <= 0 {
        Seq::empty()
    } else {
        let init = clipped_to(rects, area, n - 1);
        match rects[n - 1].clip(area) {
            Some(c) => init.push(c),
            None => init,
        }
    }
}

fn clip_all(rects: &[Rect], area: Rect) -> (out: Vec<Rect>)
    requires
        all_valid(rects@),
        area.valid(),
    ensures
        out@ == clipped_to(rects@, area, rects@.len() as int),
        all_valid(out@),
{
    let mut out: Vec<Rect> = Vec::new();
    let mut i: usize = 0;
    while i < rects.len()
        invariant
            i <= rects@.len(),
            all_valid(rects@),
            area.valid(),
            out@ == clipped_to(rects@, area, i as int),
            all_valid(out@),
        decreases rects.len() - i,
    {
        assert(rects@[i as int].valid());
        if let Some(c) = rects[i].intersection(area) {
            out.push(c);
        }
        i = i + 1;
    }
    out
}

/// The area that an element with clipped corners shows, measured from the
/// element.
pub open spec fn shown_area(painted: Rect, element: Point) -> Rect {
    shifted(painted, -element.x, -element.y)
}

/// Damage of an element with clipped corners: what is outside the area that it
/// shows does not change anything.
pub fn rounded_damage(damage: &[Rect], painted: Rect, element: Point) -> (out: Vec<Rect>)
    requires
        all_valid(damage@),
        painted.valid(),
        shift_fits(painted, -element.x, -element.y),
    ensures
        out@ == clipped_to(damage@, shown_area(painted, element), damage@.len() as int),
{
    let geo = shift(painted, -(element.x as i64), -(element.y as i64));
    clip_all(damage, geo)
}

/// Sides, in physical pixels, of the squares that hold the rounded corners; 0
/// for a corner that is not rounded.
#[derive(Clone, Copy, Debug, PartialEq, Eq, Structural)]
pub struct CornerSquares {
    pub top_left: i32,
    pub top_right: i32,
    pub bottom_right: i32,
    pub bottom_left: i32,
}

impl CornerSquares {
    pub open spec fn valid(self) -> bool {
        self.top_left >= 0 && self.top_right >= 0 && self.bottom_right >= 0 && self.bottom_left
            >= 0
    }

    pub open spec fn any(self) -> bool {
        self.top_left > 0 || self.top_right > 0 || self.bottom_right > 0 || self.bottom_left > 0
    }
}

/// The squares that hold the rounded corners of a `w`×`h` area at the origin.
pub open spec fn cutouts(size: Size, c: CornerSquares) -> Seq<Rect> {
    seq![
        square(0, 0, c.top_left),
        square(size.w - c.top_right, 0, c.top_right),
        square(size.w - c.bottom_right, size.h - c.bottom_right, c.bottom_right),
        square(0, size.h - c.bottom_left, c.bottom_left),
    ]
}

pub open spec fn square(x: int, y: int, side: i32) -> Rect {
    Rect { loc: Point { x: x as i32, y: y as i32 }, size: Size { w: side, h: side } }
}

/// The squares that hold the rounded corners of an area, measured from it.
pub fn corner_cutouts(size: Size, c: CornerSquares) -> (out: Vec<Rect>)
    requires
        size.valid(),
        c.valid(),
    ensures
        out@ == cutouts(size, c),
        all_valid(out@),
{
    let mut out: Vec<Rect> = Vec::new();
    out.push(
        Rect { loc: Point { x: 0, y: 0 }, size: Size { w: c.top_left, h: c.top_left } },
    );
    out.push(
        Rect {
            loc: Point { x: size.w - c.top_right, y: 0 },
            size: Size { w: c.top_right, h: c.top_right },
        },
    );
    out.push(
        Rect {
            loc: Point { x: size.w - c.bottom_right, y: size.h - c.bottom_right },
            size: Size { w: c.bottom_right, h: c.bottom_right },
        },
    );
    out.push(
        Rect {
            loc: Point { x: 0, y: size.h - c.bottom_left },
            size: Size { w: c.bottom_left, h: c.bottom_left },
        },
    );
    assert(out@ =~= cutouts(size, c));
    out
}

/// The area that an element with clipped corners shows less a rim of one pixel,
/// which is always blended.
pub open spec fn inside_rim(geo: Rect) -> Rect {
    Rect {
        loc: Point { x: (geo.loc.x + 1) as i32, y: (geo.loc.y + 1) as i32 },
        size: Size { w: (geo.size.w - 2) as i32, h: (geo.size.h - 2) as i32 },
    }
}

/// The squares of the corners, measured from the element.
pub open spec fn placed_cutouts(painted: Size, c: CornerSquares, at: Point) -> Seq<Rect> {
    cutouts(painted, c).map_values(|r: Rect| shifted(r, at.x as int, at.y as int))
}

/// The squares' places fit the coordinates' type.
pub open spec fn cutouts_fit(painted: Size, c: CornerSquares, at: Point) -> bool {
    shifts_fit(cutouts(painted, c), at.x as int, at.y as int)
}

/// Opaque regions of an element with clipped corners: the parts of its regions
/// that are in the area that it shows, less a rim of one pixel, and outside the
/// squares that hold the rounded corners. There are none where nothing is left
/// within the rim.
pub fn rounded_opaque_regions(
    regions: &[Rect],
    painted: Rect,
    element: Point,
    c: CornerSquares,
) -> (out: Vec<Rect>)
    requires
        all_valid(regions@),
        painted.valid(),
        c.valid(),
        shift_fits(painted, 1 - element.x, 1 - element.y),
        shift_fits(painted, -element.x, -element.y),
        cutouts_fit(painted.size, c, inside_rim(shown_area(painted, element)).loc),
    ensures
        ({
            let inner = inside_rim(shown_area(painted, element));
            let clipped = clipped_to(regions@, inner, regions@.len() as int);
            if painted.size.w <= 2 || painted.size.h <= 2 {
                out@.len() == 0
            } else if !c.any() {
                out@ == clipped
            } else {
                is_difference(out@, clipped, placed_cutouts(painted.size, c, inner.loc))
            }
        }),
        all_valid(out@),
{
    if painted.size.w <= 2 || painted.size.h <= 2 {
        return Vec::new();
    }
    let geo = shift(painted, -(element.x as i64), -(element.y as i64));
    let inner = Rect {
        loc: Point { x: geo.loc.x + 1, y: geo.loc.y + 1 },
        size: Size { w: geo.size.w - 2, h: geo.size.h - 2 },
    };
    let clipped = clip_all(regions, inner);
    let rounded = c.top_left > 0 || c.top_right > 0 || c.bottom_right > 0 || c.bottom_left > 0;
    if !rounded {
        return clipped;
    }
    let squares = corner_cutouts(painted.size, c);
    let ghost move_by = |r: Rect| shifted(r, inner.loc.x as int, inner.loc.y as int);
    let mut placed: Vec<Rect> = Vec::new();
    let mut i: usize = 0;
    while i < squares.len()
        invariant
            i <= squares@.len(),
            all_valid(squares@),
            all_valid(placed@),
            shifts_fit(squares@, inner.loc.x as int, inner.loc.y as int),
            move_by == (|r: Rect| shifted(r, inner.loc.x as int, inner.loc.y as int)),
            placed@ =~= squares@.subrange(0, i as int).map_values(move_by),
        decreases squares.len() - i,
    {
        assert(shift_fits(squares@[i as int], inner.loc.x as int, inner.loc.y as int));
        assert(squares@[i as int].valid());
        placed.push(shift(squares[i], inner.loc.x as i64, inner.loc.y as i64));
        i = i + 1;
    }
    assert(squares@.subrange(0, i as int) =~= squares@);
    subtract_rects_many(clipped, placed.as_slice())
}

/// A pixel that is reported opaque is in the area that is shown, off its rim and
/// off the squares that hold the rounded corners.
pub proof fn law_rounded_corners_are_never_opaque(
    regions: Seq<Rect>,
    inner: Rect,
    squares: Seq<Rect>,
    out: Seq<Rect>,
    x: int,
    y: int,
)
    requires
        all_valid(regions),
        inner.valid(),
        is_difference(out, clipped_to(regions, inner, regions.len() as int), squares),
        covered(out, x, y),
    ensures
        inner.covers(x, y),
        covered(regions, x, y),
        !covered(squares, x, y),
{
    lemma_clipped(regions, inner, regions.len() as int, x, y);
}

proof fn lemma_clipped(rects: Seq<Rect>, area: Rect, n: int, x: int, y: int)
    requires
        0 <= n <= rects.len(),
        all_valid(rects),
        area.valid(),
        covered(clipped_to(rects, area, n), x, y),
    ensures
        area.covers(x, y),
        covered(rects, x, y),
    decreases n,
{
    if n > 0 {
        let init = clipped_to(rects, area, n - 1);
        let all = clipped_to(rects, area, n);
        let k = choose|k: int| 0 <= k < all.len() && (#[trigger] all[k]).covers(x, y);
        assert(rects[n - 1].valid());
        if k < init.len() {
            assert(init[k].covers(x, y));
            lemma_clipped(rects, area, n - 1, x, y);
        } else {
            crate::geometry::law_intersection_covers(rects[n - 1], area, x, y);
            assert(rects[n - 1].covers(x, y));
        }
    }
}

/// What an element reports opaque stays within the rectangle it is drawn into.
pub proof fn law_trimmed_regions_stay_inside(r: Rect, inner: Rect, dst: Rect)
    requires
        dst.valid(),
        r.valid(),
        shift_fits(r, inner.loc.x as int, inner.loc.y as int),
        dst.loc.x + dst.size.w <= i32::MAX,
        dst.loc.y + dst.size.h <= i32::MAX,
    ensures
        trimmed_region(r, inner, dst) matches Some(t) ==> 0 <= t.loc.x && 0 <= t.loc.y && t.loc.x
            + t.size.w <= dst.size.w && t.loc.y + t.size.h <= dst.size.h,
{
}

/// A count that goes on is another than before, and one more but for the last.
pub proof fn law_commits_go_on(commit: u64)
    ensures
        next_commit(commit) != commit,
        commit < u64::MAX ==> next_commit(commit) == commit + 1,
        commit == u64::MAX ==> next_commit(commit) == 0,
{
}

/// Moving a rectangle moves every pixel of it.
pub proof fn law_moving_moves_every_pixel(r: Rect, dx: int, dy: int, x: int, y: int)
    requires
        shift_fits(r, dx, dy),
        x < i32::MAX && y < i32::MAX,
        x + dx < i32::MAX && y + dy < i32::MAX,
    ensures
        shifted(r, dx, dy).covers(x + dx, y + dy) <==> r.covers(x, y),
        shifted(r, dx, dy).size == r.size,
{
}

/// A pixel of what an element is drawn into is opaque, by a region of the element,
/// exactly if the region holds the pixel of the element that is there.
pub proof fn law_trimmed_region_is_what_shows(r: Rect, inner: Rect, dst: Rect, x: int, y: int)
    requires
        dst.valid(),
        r.valid(),
        shift_fits(r, inner.loc.x as int, inner.loc.y as int),
        0 <= x < dst.size.w,
        0 <= y < dst.size.h,
        dst.loc.x + dst.size.w < i32::MAX,
        dst.loc.y + dst.size.h < i32::MAX,
        r.loc.x + inner.loc.x + r.size.w < i32::MAX,
        r.loc.y + inner.loc.y + r.size.h < i32::MAX,
    ensures
        (trimmed_region(r, inner, dst) matches Some(t) && 0 <= x - t.loc.x < t.size.w && 0 <= y
            - t.loc.y < t.size.h) <==> (0 <= x + dst.loc.x - inner.loc.x - r.loc.x < r.size.w && 0
            <= y + dst.loc.y - inner.loc.y - r.loc.y < r.size.h),
{
}

/// Every opaque region that shows is reported, and nothing else is.
pub proof fn law_every_region_is_trimmed(
    regions: Seq<Rect>,
    inner: Rect,
    dst: Rect,
    n: int,
    t: Rect,
)
    requires
        0 <= n <= regions.len(),
    ensures
        trimmed_regions(regions, inner, dst, n).contains(t) <==> exists|i: int|
            0 <= i < n && trimmed_region(#[trigger] regions[i], inner, dst) == Some(t),
    decreases n,
{
    let all = trimmed_regions(regions, inner, dst, n);
    if n > 0 {
        law_every_region_is_trimmed(regions, inner, dst, n - 1, t);
        let init = trimmed_regions(regions, inner, dst, n - 1);
        if init.contains(t) {
            let k = choose|k: int| 0 <= k < init.len() && init[k] == t;
            assert(all[k] == t);
        }
        if trimmed_region(regions[n - 1], inner, dst) == Some(t) {
            assert(all[init.len() as int] == t);
        }
        if all.contains(t) {
            let k = choose|k: int| 0 <= k < all.len() && all[k] == t;
            if k < init.len() {
                assert(init[k] == t);
            } else {
                assert(trimmed_region(regions[n - 1], inner, dst) == Some(t));
            }
        }
    }
}

/// Clipping some rectangles to an area leaves of them exactly what is in it.
pub proof fn law_clipping_leaves_what_is_inside(
    rects: Seq<Rect>,
    area: Rect,
    n: int,
    x: int,
    y: int,
)
    requires
        0 <= n <= rects.len(),
        all_valid(rects),
        area.valid(),
    ensures
        covered(clipped_to(rects, area, n), x, y) <==> area.covers(x, y) && exists|i: int|
            0 <= i < n && (#[trigger] rects[i]).covers(x, y),
    decreases n,
{
    let all = clipped_to(rects, area, n);
    if n > 0 {
        law_clipping_leaves_what_is_inside(rects, area, n - 1, x, y);
        let init = clipped_to(rects, area, n - 1);
        crate::geometry::law_intersection_covers(rects[n - 1], area, x, y);
        if covered(init, x, y) {
            let k = choose|k: int| 0 <= k < init.len() && (#[trigger] init[k]).covers(x, y);
            assert(all[k].covers(x, y));
        }
        if rects[n - 1].clip(area) is Some {
            assert(all[init.len() as int] == rects[n - 1].clip(area)->0);
        }
        if covered(all, x, y) {
            let k = choose|k: int| 0 <= k < all.len() && (#[trigger] all[k]).covers(x, y);
            if k < init.len() {
                assert(init[k].covers(x, y));
            } else {
                assert(rects[n - 1].covers(x, y));
            }
        }
    }
}

/// The area that an element shows starts where the element does not, and within
/// the rim a pixel less is left on every side.
pub proof fn law_rim_is_one_pixel(painted: Rect, element: Point)
    requires
        painted.size.w > 2,
        painted.size.h > 2,
        shift_fits(painted, 1 - element.x, 1 - element.y),
        shift_fits(painted, -element.x, -element.y),
    ensures
        ({
            let shown = shown_area(painted, element);
            let inner = inside_rim(shown);
            &&& shown.loc.x + element.x == painted.loc.x && shown.loc.y + element.y == painted.loc.y
            &&& shown.size == painted.size
            &&& inner.loc.x == shown.loc.x + 1 && inner.loc.y == shown.loc.y + 1
            &&& inner.loc.x + inner.size.w == shown.loc.x + shown.size.w - 1
            &&& inner.loc.y + inner.size.h == shown.loc.y + shown.size.h - 1
        }),
{
}

/// The squares stand in the corners of the area, one in each, and are as large as
/// the corner is round.
pub proof fn law_squares_stand_in_the_corners(size: Size, c: CornerSquares, x: int, y: int)
    requires
        size.valid(),
        c.valid(),
        0 <= x < size.w,
        0 <= y < size.h,
    ensures
        covered(cutouts(size, c), x, y) <==> {
            ||| x < c.top_left && y < c.top_left
            ||| size.w - x <= c.top_right && y < c.top_right
            ||| size.w - x <= c.bottom_right && size.h - y <= c.bottom_right
            ||| x < c.bottom_left && size.h - y <= c.bottom_left
        },
        c.any() <==> c.top_left + c.top_right + c.bottom_right + c.bottom_left > 0,
{
    let all = cutouts(size, c);
    assert(all.len() == 4);
    assert(all[0] == square(0, 0, c.top_left));
    assert(all[1] == square(size.w - c.top_right, 0, c.top_right));
    assert(all[2] == square(size.w - c.bottom_right, size.h - c.bottom_right, c.bottom_right));
    assert(all[3] == square(0, size.h - c.bottom_left, c.bottom_left));
    assert(all[0].covers(x, y) || all[1].covers(x, y) || all[2].covers(x, y) || all[3].covers(x, y)
        ==> covered(all, x, y));
    if covered(all, x, y) {
        let k = choose|k: int| 0 <= k < all.len() && (#[trigger] all[k]).covers(x, y);
        assert(k == 0 || k == 1 || k == 2 || k == 3);
    }
}

/// Measured from the element, the squares are where they are measured from the
/// area, moved to it.
pub proof fn law_squares_follow_the_area(painted: Size, c: CornerSquares, at: Point, k: int)
    requires
        cutouts_fit(painted, c, at),
        0 <= k < 4,
    ensures
        placed_cutouts(painted, c, at).len() == 4,
        ({
            let here = cutouts(painted, c)[k];
            let there = placed_cutouts(painted, c, at)[k];
            &&& there.loc.x == here.loc.x + at.x
            &&& there.loc.y == here.loc.y + at.y
            &&& there.size == here.size
        }),
{
    assert(cutouts(painted, c).len() == 4);
    assert(shift_fits(cutouts(painted, c)[k], at.x as int, at.y as int));
}

/// Damage of an element stays where it is on the screen: measured from where the
/// element is drawn, and moved by that place, it is where it was measured from the
/// element's own rectangle.
pub proof fn law_damage_stays_in_place(e: TrimmedElement, r: Rect)
    requires
        shift_fits(r, e.offset().0, e.offset().1),
    ensures
        ({
            let moved = shifted(r, e.offset().0, e.offset().1);
            &&& e.dst.loc.x + moved.loc.x == e.inner.loc.x + r.loc.x
            &&& e.dst.loc.y + moved.loc.y == e.inner.loc.y + r.loc.y
            &&& moved.size == r.size
        }),
{
}

} // verus!
