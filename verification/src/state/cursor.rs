//! Cursor images: which frames of a cursor file are shown, and for how long.

use crate::geometry::min_of;
use crate::names::NamedMap;
use vstd::prelude::*;

verus! {

/// One image of a cursor file.
pub struct CursorImage {
    /// Nominal size.
    pub size: u32,
    pub width: u32,
    pub height: u32,
    /// The pixel of the cursor's tip.
    pub xhot: u32,
    pub yhot: u32,
    /// Milliseconds that it is shown for.
    pub delay: u32,
    /// Pixel bytes in the file's order.
    pub pixels: Vec<u8>,
}

pub struct ImageView {
    pub size: u32,
    pub width: u32,
    pub height: u32,
    pub xhot: u32,
    pub yhot: u32,
    pub delay: u32,
    pub pixels: Seq<u8>,
}

impl View for CursorImage {
    type V = ImageView;

    open spec fn view(&self) -> ImageView {
        ImageView {
            size: self.size,
            width: self.width,
            height: self.height,
            xhot: self.xhot,
            yhot: self.yhot,
            delay: self.delay,
            pixels: self.pixels@,
        }
    }
}

pub open spec fn image_views(images: Seq<CursorImage>) -> Seq<ImageView> {
    images.map_values(|i: CursorImage| i@)
}

pub open spec fn parsed_views(images: Option<Vec<CursorImage>>) -> Option<Seq<ImageView>> {
    match images {
        Some(v) => Some(image_views(v@)),
        None => None,
    }
}

/// The images of a cursor file, in the order of its table of contents; nothing
/// if it is not one.
pub uninterp spec fn images_in(content: Seq<u8>) -> Option<Seq<ImageView>>;

/// `xcursor::parser::parse_xcursor`: the images of a cursor file. They depend on
/// the file's bytes alone. What a given file holds is not stated.
#[verifier::external_body]
fn parse_xcursor(content: &[u8]) -> (images: Option<Vec<CursorImage>>)
    ensures
        parsed_views(images) == images_in(content@),
{
    let images = xcursor::parser::parse_xcursor(content)?;
    let mut out = Vec::new();
    for i in images {
        out.push(CursorImage {
            size: i.size,
            width: i.width,
            height: i.height,
            xhot: i.xhot,
            yhot: i.yhot,
            delay: i.delay,
            pixels: i.pixels_rgba,
        });
    }
    Some(out)
}

/// How far apart two sizes are, as 32-bit numbers that wrap around.
pub open spec fn size_distance(a: int, b: int) -> int {
    let d = if a >= b {
        a - b
    } else {
        b - a
    };
    min_of(d, 0x1_0000_0000 - d)
}

/// The image among the first `n` whose size is nearest to a target; the first of
/// several.
pub open spec fn nearest(images: Seq<ImageView>, target: u32, n: int) -> Option<int>
    decreases n,
{
    if n <= 0 {
        None
    } else {
        let best = nearest(images, target, n - 1);
        match best {
            Some(b) if size_distance(images[b].size as int, target as int) <= size_distance(
                images[n - 1].size as int,
                target as int,
            ) => best,
            _ => Some(n - 1),
        }
    }
}

/// One frame of a cursor.
pub struct CursorFrame {
    pub pixels: Vec<u8>,
    pub width: u32,
    pub height: u32,
    pub xhot: u32,
    pub yhot: u32,
    pub delay: u32,
}

pub struct FrameView {
    pub pixels: Seq<u8>,
    pub width: u32,
    pub height: u32,
    pub xhot: u32,
    pub yhot: u32,
    pub delay: u32,
}

impl View for CursorFrame {
    type V = FrameView;

    open spec fn view(&self) -> FrameView {
        FrameView {
            pixels: self.pixels@,
            width: self.width,
            height: self.height,
            xhot: self.xhot,
            yhot: self.yhot,
            delay: self.delay,
        }
    }
}

/// All frames of a cursor at one nominal size.
pub struct CursorFrames {
    pub frames: Vec<CursorFrame>,
    /// The delays together; 0 for a cursor that does not move.
    pub total_duration_ms: u32,
}

pub struct FramesView {
    pub frames: Seq<FrameView>,
    pub total_duration_ms: int,
}

impl View for CursorFrames {
    type V = FramesView;

    open spec fn view(&self) -> FramesView {
        FramesView {
            frames: self.frames@.map_values(|f: CursorFrame| f@),
            total_duration_ms: self.total_duration_ms as int,
        }
    }
}

/// The frames among the first `n` images that have a size.
pub open spec fn frames_of_size(images: Seq<ImageView>, size: u32, n: int) -> Seq<FrameView>
    decreases n,
{
    if n <= 0 {
        Seq::empty()
    } else {
        let init = frames_of_size(images, size, n - 1);
        let i = images[n - 1];
        if i.size == size {
            init.push(
                FrameView {
                    pixels: i.pixels,
                    width: i.width,
                    height: i.height,
                    xhot: i.xhot,
                    yhot: i.yhot,
                    delay: i.delay,
                },
            )
        } else {
            init
        }
    }
}

/// The delays of some frames together.
pub open spec fn total_delay(frames: Seq<FrameView>) -> int
    decreases frames.len(),
{
    if frames.len() == 0 {
        0
    } else {
        total_delay(frames.drop_last()) + frames.last().delay
    }
}

/// How long a cursor's cycle takes: 0 for a single frame, else the delays
/// together, as far as a 32-bit number holds them.
pub open spec fn cycle_length(frames: Seq<FrameView>) -> int {
    if frames.len() == 1 {
        0
    } else {
        min_of(total_delay(frames), u32::MAX as int)
    }
}

/// The frames that are shown of some images: those of the nearest size.
pub open spec fn chosen_frames(images: Seq<ImageView>, target: u32) -> Option<FramesView> {
    match nearest(images, target, images.len() as int) {
        None => None,
        Some(b) => {
            let frames = frames_of_size(images, images[b].size, images.len() as int);
            Some(FramesView { frames, total_duration_ms: cycle_length(frames) })
        },
    }
}

pub open spec fn frames_view(f: Option<CursorFrames>) -> Option<FramesView> {
    match f {
        Some(f) => Some(f@),
        None => None,
    }
}

fn distance(a: u32, b: u32) -> (d: u64)
    ensures
        d == size_distance(a as int, b as int),
{
    let d: u64 = if a >= b {
        (a - b) as u64
    } else {
        (b - a) as u64
    };
    if d <= 0x1_0000_0000 - d {
        d
    } else {
        0x1_0000_0000 - d
    }
}

fn nearest_image(images: &Vec<CursorImage>, target: u32) -> (at: Option<usize>)
    ensures
        match at {
            Some(i) => i < images@.len() && nearest(
                image_views(images@),
                target,
                images@.len() as int,
            ) == Some(i as int),
            None => nearest(image_views(images@), target, images@.len() as int) is None,
        },
        at is None <==> images@.len() == 0,
{
    let ghost views = image_views(images@);
    let mut best: Option<usize> = None;
    let mut n: usize = 0;
    while n < images.len()
        invariant
            n <= images@.len(),
            views == image_views(images@),
            match best {
                Some(b) => b < n && nearest(views, target, n as int) == Some(b as int),
                None => n == 0 && nearest(views, target, n as int) is None,
            },
        decreases images.len() - n,
    {
        assert(views[n as int] == images@[n as int]@);
        let better = match best {
            Some(b) => {
                assert(views[b as int] == images@[b as int]@);
                distance(images[b].size, target) > distance(images[n].size, target)
            },
            None => true,
        };
        if better {
            best = Some(n);
        }
        n = n + 1;
    }
    best
}

proof fn lemma_delays_grow(frames: Seq<FrameView>)
    ensures
        total_delay(frames) >= 0,
    decreases frames.len(),
{
    if frames.len() > 0 {
        lemma_delays_grow(frames.drop_last());
    }
}

proof fn lemma_first_frame(images: Seq<ImageView>, size: u32, b: int, n: int)
    requires
        0 <= b < n <= images.len(),
        images[b].size == size,
    ensures
        frames_of_size(images, size, n).len() >= 1,
    decreases n,
{
    if b < n - 1 {
        lemma_first_frame(images, size, b, n - 1);
    }
}

/// The frames that are shown of some images: all those of the size that is
/// nearest to the target. There are none exactly if there are no images.
pub fn choose_frames(images: Vec<CursorImage>, target: u32) -> (chosen: Option<CursorFrames>)
    ensures
        frames_view(chosen) == chosen_frames(image_views(images@), target),
        chosen is None <==> images@.len() == 0,
{
    let ghost all = images@;
    let ghost views = image_views(all);
    let size: u32 = match nearest_image(&images, target) {
        Some(b) => {
            proof {
                assert(views[b as int] == all[b as int]@);
                lemma_first_frame(views, views[b as int].size, b as int, all.len() as int);
            }
            images[b].size
        },
        None => {
            return None;
        },
    };
    let mut frames: Vec<CursorFrame> = Vec::new();
    let mut total: u32 = 0;
    assert(frames@.map_values(|f: CursorFrame| f@) =~= Seq::<FrameView>::empty());
    for image in it: images
        invariant
            it.seq() == all,
            views == image_views(all),
            frames@.map_values(|f: CursorFrame| f@) == frames_of_size(
                views,
                size,
                it.index() as int,
            ),
            total == min_of(
                total_delay(frames_of_size(views, size, it.index() as int)),
                u32::MAX as int,
            ),
    {
        assert(views[it.index() as int] == image@);
        if image.size == size {
            let ghost before = frames@.map_values(|f: CursorFrame| f@);
            let frame = CursorFrame {
                pixels: image.pixels,
                width: image.width,
                height: image.height,
                xhot: image.xhot,
                yhot: image.yhot,
                delay: image.delay,
            };
            total = total.saturating_add(frame.delay);
            let ghost shown = frame@;
            frames.push(frame);
            proof {
                let now = frames@.map_values(|f: CursorFrame| f@);
                assert(now =~= before.push(shown));
                assert(now.drop_last() =~= before);
                lemma_delays_grow(before);
                assert(now == frames_of_size(views, size, it.index() + 1));
            }
        }
    }
    let ghost shown = frames@.map_values(|f: CursorFrame| f@);
    let total_duration_ms: u32 = if frames.len() == 1 {
        0
    } else {
        total
    };
    assert(shown.len() == frames@.len());
    Some(CursorFrames { frames, total_duration_ms })
}

/// What the cursor shows.
pub enum CursorStatus {
    /// A cursor of the theme.
    Named(String),
    /// A client's surface, or nothing.
    Other,
}

/// The cursor and the frames that have been loaded.
pub struct CursorState {
    pub status: CursorStatus,
    /// By cursor name.
    pub buffers: NamedMap<CursorFrames>,
}

impl CursorState {
    pub open spec fn wf(self) -> bool {
        self.buffers.wf()
    }

    pub fn new() -> (c: CursorState)
        ensures
            c.wf(),
            c.buffers@ == Map::<Seq<char>, CursorFrames>::empty(),
            c.status matches CursorStatus::Named(name) && name@ == "default"@,
    {
        CursorState {
            status: CursorStatus::Named(String::from_str("default")),
            buffers: NamedMap::new(),
        }
    }

    /// Whether the cursor has frames that take turns.
    pub fn is_animated(&self) -> (animated: bool)
        requires
            self.wf(),
        ensures
            animated == match self.status {
                CursorStatus::Named(name) => self.buffers@.dom().contains(name@)
                    && self.buffers@[name@].total_duration_ms > 0,
                CursorStatus::Other => false,
            },
    {
        match &self.status {
            CursorStatus::Named(name) => match self.buffers.get(name.as_str()) {
                Some(f) => f.total_duration_ms > 0,
                None => false,
            },
            CursorStatus::Other => false,
        }
    }

    /// Keeps the frames that are shown of some images under a name. Frames that
    /// are kept already stay.
    pub fn keep_frames(
        &mut self,
        name: &str,
        images: Option<Vec<CursorImage>>,
        target: u32,
    ) -> (held: bool)
        requires
            old(self).wf(),
        ensures
            final(self).wf(),
            final(self).status == old(self).status,
            held == (old(self).buffers@.dom().contains(name@) || (images matches Some(v)
                && v@.len() > 0)),
            if old(self).buffers@.dom().contains(name@) || !held {
                final(self).buffers@ == old(self).buffers@
            } else {
                exists|f: CursorFrames|
                    final(self).buffers@ == #[trigger] old(self).buffers@.insert(name@, f) && Some(
                        f@,
                    ) == chosen_frames(image_views(images->0@), target)
            },
    {
        if self.buffers.contains(name) {
            return true;
        }
        match images {
            None => false,
            Some(v) => match choose_frames(v, target) {
                None => false,
                Some(frames) => {
                    self.buffers.push_new(name.to_owned(), frames);
                    assert(self.buffers@ == old(self).buffers@.insert(name@, frames));
                    true
                },
            },
        }
    }

    /// Loads a cursor from its file and keeps its frames under its name. Nothing
    /// is done if they are kept already. Returns whether they are kept now.
    pub fn load_xcursor(&mut self, name: &str, content: &[u8], target: u32) -> (held: bool)
        requires
            old(self).wf(),
        ensures
            final(self).wf(),
            final(self).status == old(self).status,
            held == (old(self).buffers@.dom().contains(name@) || (images_in(
                content@,
            ) matches Some(v) && v.len() > 0)),
            if old(self).buffers@.dom().contains(name@) || !held {
                final(self).buffers@ == old(self).buffers@
            } else {
                exists|f: CursorFrames|
                    final(self).buffers@ == #[trigger] old(self).buffers@.insert(name@, f) && Some(
                        f@,
                    ) == chosen_frames(images_in(content@)->0, target)
            },
    {
        if self.buffers.contains(name) {
            return true;
        }
        let images = parse_xcursor(content);
        self.keep_frames(name, images, target)
    }
}

/// The frames that are shown have the size that is nearest to the target: no
/// image is nearer.
pub proof fn law_no_image_is_nearer(images: Seq<ImageView>, target: u32, i: int)
    requires
        0 <= i < images.len(),
    ensures
        nearest(images, target, images.len() as int) matches Some(b) && 0 <= b < images.len()
            && size_distance(images[b].size as int, target as int) <= size_distance(
            images[i].size as int,
            target as int,
        ),
{
    lemma_nearest(images, target, images.len() as int, i);
}

proof fn lemma_nearest(images: Seq<ImageView>, target: u32, n: int, i: int)
    requires
        0 <= i < n <= images.len(),
    ensures
        nearest(images, target, n) matches Some(b) && 0 <= b < n && size_distance(
            images[b].size as int,
            target as int,
        ) <= size_distance(images[i].size as int, target as int),
    decreases n,
{
    if i < n - 1 {
        lemma_nearest(images, target, n - 1, i);
    } else if n > 1 {
        lemma_nearest(images, target, n - 1, 0);
    }
}

/// Sizes that are not half of all numbers apart are as far apart as they differ,
/// either way round; only a size itself is at no distance.
pub proof fn law_distance_is_the_difference(a: u32, b: u32)
    ensures
        size_distance(a as int, b as int) == size_distance(b as int, a as int),
        size_distance(a as int, b as int) == 0 <==> a == b,
        b <= a <= b + 0x8000_0000 ==> size_distance(a as int, b as int) == a - b,
        a > b + 0x8000_0000 ==> size_distance(a as int, b as int) == b + 0x1_0000_0000 - a,
{
}

/// Of several images of the nearest size the first decides.
pub proof fn law_first_of_the_nearest(images: Seq<ImageView>, target: u32, n: int, i: int)
    requires
        0 <= i < n <= images.len(),
        nearest(images, target, n) matches Some(b) && i < b,
    ensures
        size_distance(images[i].size as int, target as int) > size_distance(
            images[nearest(images, target, n)->0].size as int,
            target as int,
        ),
    decreases n,
{
    if n > 1 {
        lemma_nearest(images, target, n - 1, 0);
    }
    if nearest(images, target, n) == nearest(images, target, n - 1) {
        law_first_of_the_nearest(images, target, n - 1, i);
    } else {
        lemma_nearest(images, target, n - 1, i);
    }
}

/// The frames that are shown are those of all images of the nearest size and of no
/// other, in the file's order, with what the image says.
pub proof fn law_frames_are_the_images_of_their_size(images: Seq<ImageView>, size: u32, n: int)
    requires
        n == images.len(),
    ensures
        frames_of_size(images, size, n) == images.filter(
            |i: ImageView| i.size == size,
        ).map_values(
            |i: ImageView|
                FrameView {
                    pixels: i.pixels,
                    width: i.width,
                    height: i.height,
                    xhot: i.xhot,
                    yhot: i.yhot,
                    delay: i.delay,
                },
        ),
    decreases n,
{
    reveal(Seq::filter);
    let own = |i: ImageView| i.size == size;
    let frame = |i: ImageView|
        FrameView {
            pixels: i.pixels,
            width: i.width,
            height: i.height,
            xhot: i.xhot,
            yhot: i.yhot,
            delay: i.delay,
        };
    if n > 0 {
        let rest = images.drop_last();
        law_frames_are_the_images_of_their_size(rest, size, n - 1);
        lemma_frames_of_prefix(images, rest, size, n - 1);
        assert(frames_of_size(images, size, n) =~= images.filter(own).map_values(frame));
    } else {
        assert(frames_of_size(images, size, n) =~= images.filter(own).map_values(frame));
    }
}

proof fn lemma_frames_of_prefix(
    images: Seq<ImageView>,
    rest: Seq<ImageView>,
    size: u32,
    n: int,
)
    requires
        n <= rest.len() <= images.len(),
        forall|i: int| 0 <= i < rest.len() ==> rest[i] == #[trigger] images[i],
    ensures
        frames_of_size(images, size, n) == frames_of_size(rest, size, n),
    decreases n,
{
    if n > 0 {
        lemma_frames_of_prefix(images, rest, size, n - 1);
        assert(rest[n - 1] == images[n - 1]);
    }
}

/// Delays add up, and a cursor of one frame does not move.
pub proof fn law_cycle_takes_all_delays(a: Seq<FrameView>, b: Seq<FrameView>, f: FrameView)
    ensures
        total_delay(seq![f]) == f.delay,
        total_delay(a + b) == total_delay(a) + total_delay(b),
        cycle_length(seq![f]) == 0,
        a.len() > 1 && total_delay(a) <= u32::MAX ==> cycle_length(a) == total_delay(a),
        a.len() > 1 && total_delay(a) > u32::MAX ==> cycle_length(a) == u32::MAX,
    decreases b.len(),
{
    assert(seq![f].drop_last() =~= Seq::empty());
    assert(total_delay(seq![f].drop_last()) == 0);
    if b.len() > 0 {
        law_cycle_takes_all_delays(a, b.drop_last(), f);
        assert((a + b).drop_last() =~= a + b.drop_last());
        assert((a + b).last() == b.last());
    } else {
        assert(a + b =~= a);
    }
}

/// What is shown of some images: something exactly if there is an image, of one
/// size that no image is nearer than.
pub proof fn law_chosen_frames_are_of_the_nearest_size(
    images: Seq<ImageView>,
    target: u32,
    i: int,
)
    requires
        0 <= i < images.len(),
    ensures
        chosen_frames(images, target) matches Some(shown) && exists|b: int|
            0 <= b < images.len() && shown.frames == frames_of_size(
                images,
                (#[trigger] images[b]).size,
                images.len() as int,
            ) && size_distance(images[b].size as int, target as int) <= size_distance(
                images[i].size as int,
                target as int,
            ) && shown.total_duration_ms == cycle_length(shown.frames),
{
    lemma_nearest(images, target, images.len() as int, i);
    let b = nearest(images, target, images.len() as int)->0;
    assert(images[b].size == images[b].size);
}

} // verus!
