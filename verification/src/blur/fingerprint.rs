//! Fingerprints of what lies beneath a frosted window.

use crate::blur::backdrop::{padded, padded_rect, pads};
use crate::blur::mask::region_seq;
use crate::geometry::Rect;
use std::collections::hash_map::DefaultHasher;
use std::hash::Hasher;
use vstd::bytes::{spec_u64_to_le_bytes, u64_to_le_bytes};
use vstd::prelude::*;
use vstd::std_specs::hash::DefaultHasherAdditionalSpecFns;

verus! {

/// A composed element as the blur sees it: a stable identity, a counter that
/// advances with every content change, and where it is drawn.
#[derive(Clone, Copy, Debug, PartialEq, Eq, Structural)]
pub struct ElementInfo {
    pub id: u64,
    pub commit: u64,
    pub geometry: Rect,
}

/// Both facts that one walk over what lies beneath a window decides.
#[derive(Clone, Copy, Debug, PartialEq, Eq, Structural)]
pub struct BackdropFingerprint {
    pub hash: u64,
    /// Something between this window and the scene background reaches into the
    /// rectangle its frost is captured from.
    pub occluded_by_lower: bool,
}

/// The elements of `lower` that reach into `capture`, in order.
pub open spec fn reaching(lower: Seq<ElementInfo>, capture: Rect) -> Seq<ElementInfo> {
    lower.filter(|e: ElementInfo| e.geometry.meets(capture))
}

/// `i` as an unsigned token.
pub open spec fn coordinate_token(i: i32) -> u64 {
    (i + 0x8000_0000) as u64
}

pub open spec fn rect_tokens(r: Rect) -> Seq<u64> {
    seq![
        coordinate_token(r.loc.x),
        coordinate_token(r.loc.y),
        coordinate_token(r.size.w),
        coordinate_token(r.size.h),
    ]
}

/// Identity and counter of each element, in order.
pub open spec fn content_tokens(elements: Seq<ElementInfo>) -> Seq<u64>
    decreases elements.len(),
{
    if elements.len() == 0 {
        Seq::empty()
    } else {
        content_tokens(elements.drop_last()) + seq![elements.last().id, elements.last().commit]
    }
}

/// Identity of each element, in order.
pub open spec fn identity_tokens(elements: Seq<ElementInfo>) -> Seq<u64> {
    elements.map_values(|e: ElementInfo| e.id)
}

pub open spec fn rects_tokens(rects: Seq<Rect>) -> Seq<u64>
    decreases rects.len(),
{
    if rects.len() == 0 {
        Seq::empty()
    } else {
        rects_tokens(rects.drop_last()) + rect_tokens(rects.last())
    }
}

/// 1 and the number of rectangles, or zeros where there is no region.
pub open spec fn region_head(regions: Option<Seq<Rect>>) -> Seq<u64> {
    match regions {
        Some(rects) => seq![1u64, rects.len() as u64],
        None => seq![0u64, 0u64],
    }
}

pub open spec fn region_tokens(regions: Option<Seq<Rect>>) -> Seq<u64> {
    match regions {
        Some(rects) => rects_tokens(rects),
        None => Seq::empty(),
    }
}

/// Everything a window's own frost depends on, as numbers: the elements that
/// reach into its capture with their content counters, the identities of the
/// scene background, its rectangle and its client's blur region.
pub open spec fn backdrop_tokens(
    survivors: Seq<ElementInfo>,
    background: Seq<ElementInfo>,
    window_rect: Rect,
    regions: Option<Seq<Rect>>,
) -> Seq<u64> {
    seq![survivors.len() as u64, background.len() as u64] + region_head(regions)
        + rect_tokens(window_rect) + content_tokens(survivors) + identity_tokens(background)
        + region_tokens(regions)
}

/// The hash of a list of numbers, each fed to the hasher as eight bytes.
pub open spec fn hash_of(tokens: Seq<u64>) -> u64 {
    DefaultHasher::spec_finish(tokens.map_values(|t: u64| spec_u64_to_le_bytes(t)))
}

/// The fingerprint of the backdrop of one window.
pub open spec fn fingerprint_of(
    lower: Seq<ElementInfo>,
    background: Seq<ElementInfo>,
    window_rect: Rect,
    pad: int,
    regions: Option<Seq<Rect>>,
) -> BackdropFingerprint {
    let survivors = reaching(lower, padded(window_rect, pad));
    BackdropFingerprint {
        hash: hash_of(backdrop_tokens(survivors, background, window_rect, regions)),
        occluded_by_lower: survivors.len() > 0,
    }
}

fn feed(hasher: &mut DefaultHasher, token: u64)
    ensures
        final(hasher)@ == old(hasher)@.push(spec_u64_to_le_bytes(token)),
{
    let bytes: Vec<u8> = u64_to_le_bytes(token);
    hasher.write(bytes.as_slice());
}

fn token_of(i: i32) -> (t: u64)
    ensures
        t == coordinate_token(i),
{
    (i as i64 + 0x8000_0000) as u64
}

fn push_rect(tokens: &mut Vec<u64>, r: Rect)
    ensures
        final(tokens)@ == old(tokens)@ + rect_tokens(r),
{
    tokens.push(token_of(r.loc.x));
    tokens.push(token_of(r.loc.y));
    tokens.push(token_of(r.size.w));
    tokens.push(token_of(r.size.h));
    assert(tokens@ =~= old(tokens)@ + rect_tokens(r));
}

/// The hash of a list of numbers.
fn hash_tokens(tokens: &Vec<u64>) -> (hash: u64)
    ensures
        hash == hash_of(tokens@),
{
    let mut hasher = DefaultHasher::new();
    let mut i: usize = 0;
    while i < tokens.len()
        invariant
            i <= tokens.len(),
            hasher@ =~= tokens@.subrange(0, i as int).map_values(|t: u64| spec_u64_to_le_bytes(t)),
        decreases tokens.len() - i,
    {
        feed(&mut hasher, tokens[i]);
        i = i + 1;
    }
    assert(tokens@.subrange(0, tokens.len() as int) =~= tokens@);
    hasher.finish()
}

/// Fingerprint of everything one window's own frost is taken from, split at
/// the scene background.
///
/// `lower` is what lies between the window and that background. Its content
/// counters count, but only those of elements that reach into the padded
/// capture; the same filter answers `occluded_by_lower`. Of `background` only
/// the identities count: its content is paced elsewhere.
pub fn backdrop_fingerprint(
    lower: &[ElementInfo],
    background: &[ElementInfo],
    window_rect: Rect,
    pad: i32,
    region_rects: Option<&[Rect]>,
) -> (fp: BackdropFingerprint)
    requires
        pads(window_rect, pad as int),
    ensures
        fp == fingerprint_of(
            lower@,
            background@,
            window_rect,
            pad as int,
            region_seq(region_rects),
        ),
{
    let capture = padded_rect(window_rect, pad);
    let mut content: Vec<u64> = Vec::new();
    let mut count: usize = 0;
    let mut i: usize = 0;
    assert(reaching(lower@.subrange(0, 0), capture) =~= Seq::empty()) by {
        reveal(Seq::filter);
    }
    while i < lower.len()
        invariant
            i <= lower.len(),
            count <= i,
            count == reaching(lower@.subrange(0, i as int), capture).len(),
            content@ =~= content_tokens(reaching(lower@.subrange(0, i as int), capture)),
        decreases lower.len() - i,
    {
        let e = lower[i];
        let ghost before = lower@.subrange(0, i as int);
        let ghost after = lower@.subrange(0, i + 1);
        proof {
            assert(after.drop_last() =~= before);
            assert(after.last() == e);
            reveal(Seq::filter);
        }
        if e.geometry.overlaps(capture) {
            count = count + 1;
            content.push(e.id);
            content.push(e.commit);
            proof {
                let kept = reaching(after, capture);
                assert(kept =~= reaching(before, capture).push(e));
                assert(kept.drop_last() =~= reaching(before, capture));
                assert(kept.last() == e);
                assert(content@ =~= content_tokens(kept));
            }
        } else {
            assert(reaching(after, capture) =~= reaching(before, capture));
        }
        i = i + 1;
    }
    assert(lower@.subrange(0, lower.len() as int) =~= lower@);
    let ghost survivors = reaching(lower@, capture);

    let mut tokens: Vec<u64> = Vec::new();
    tokens.push(count as u64);
    tokens.push(background.len() as u64);
    match region_rects {
        Some(rects) => {
            tokens.push(1);
            tokens.push(rects.len() as u64);
        },
        None => {
            tokens.push(0);
            tokens.push(0);
        },
    }
    push_rect(&mut tokens, window_rect);
    tokens.append(&mut content);
    let ghost with_content = tokens@;
    let mut j: usize = 0;
    while j < background.len()
        invariant
            j <= background.len(),
            tokens@ =~= with_content + identity_tokens(background@.subrange(0, j as int)),
        decreases background.len() - j,
    {
        tokens.push(background[j].id);
        proof {
            assert(background@.subrange(0, j + 1) =~= background@.subrange(0, j as int).push(
                background@[j as int],
            ));
        }
        j = j + 1;
    }
    assert(background@.subrange(0, background.len() as int) =~= background@);
    let ghost with_background = tokens@;
    if let Some(rects) = region_rects {
        let mut k: usize = 0;
        while k < rects.len()
            invariant
                k <= rects.len(),
                tokens@ =~= with_background + rects_tokens(rects@.subrange(0, k as int)),
            decreases rects.len() - k,
        {
            push_rect(&mut tokens, rects[k]);
            proof {
                let next = rects@.subrange(0, k + 1);
                assert(next.drop_last() =~= rects@.subrange(0, k as int));
                assert(next.last() == rects@[k as int]);
            }
            k = k + 1;
        }
        assert(rects@.subrange(0, rects.len() as int) =~= rects@);
    }
    proof {
        assert(tokens@ =~= backdrop_tokens(
            survivors,
            background@,
            window_rect,
            region_seq(region_rects),
        ));
    }
    BackdropFingerprint { hash: hash_tokens(&tokens), occluded_by_lower: count > 0 }
}

/// Whether the background changed structurally: an element added, removed or
/// reordered, rather than an existing one drawing new content.
pub fn background_structure_changed(before: &[(u64, u64)], after: &[(u64, u64)]) -> (changed: bool)
    ensures
        changed == structure_differs(before@, after@),
{
    if before.len() != after.len() {
        return true;
    }
    let mut i: usize = 0;
    while i < before.len()
        invariant
            i <= before.len(),
            before.len() == after.len(),
            forall|k: int| 0 <= k < i ==> (#[trigger] before@[k]).0 == after@[k].0,
        decreases before.len() - i,
    {
        if before[i].0 != after[i].0 {
            assert(before@[i as int].0 != after@[i as int].0);
            return true;
        }
        i = i + 1;
    }
    false
}

/// The identities of two signatures differ.
pub open spec fn structure_differs(before: Seq<(u64, u64)>, after: Seq<(u64, u64)>) -> bool {
    before.len() != after.len() || exists|k: int|
        0 <= k < before.len() && (#[trigger] before[k]).0 != after[k].0
}

/// Identity and content counter of each background element, which is what the
/// shared backdrop captures.
pub open spec fn signature_of(elements: Seq<ElementInfo>) -> Seq<(u64, u64)> {
    elements.map_values(|e: ElementInfo| (e.id, e.commit))
}

/// The signature of the scene background.
pub fn background_signature(elements: &[ElementInfo]) -> (signature: Vec<(u64, u64)>)
    ensures
        signature@ == signature_of(elements@),
{
    let mut out: Vec<(u64, u64)> = Vec::new();
    let mut i: usize = 0;
    while i < elements.len()
        invariant
            i <= elements.len(),
            out@ =~= signature_of(elements@.subrange(0, i as int)),
        decreases elements.len() - i,
    {
        out.push((elements[i].id, elements[i].commit));
        proof {
            assert(elements@.subrange(0, i + 1) =~= elements@.subrange(0, i as int).push(
                elements@[i as int],
            ));
        }
        i = i + 1;
    }
    assert(elements@.subrange(0, elements.len() as int) =~= elements@);
    out
}

/// Whether two signatures are the same, counters included.
pub fn same_signature(a: &[(u64, u64)], b: &[(u64, u64)]) -> (same: bool)
    ensures
        same == (a@ == b@),
{
    if a.len() != b.len() {
        return false;
    }
    let mut i: usize = 0;
    while i < a.len()
        invariant
            i <= a.len(),
            a.len() == b.len(),
            forall|k: int| 0 <= k < i ==> a@[k] == b@[k],
        decreases a.len() - i,
    {
        if a[i].0 != b[i].0 || a[i].1 != b[i].1 {
            return false;
        }
        i = i + 1;
    }
    assert(a@ =~= b@);
    true
}

/// Identity and content counter of each element.
pub open spec fn contents(elements: Seq<ElementInfo>) -> Seq<(u64, u64)> {
    elements.map_values(|e: ElementInfo| (e.id, e.commit))
}

proof fn lemma_content_tokens(elements: Seq<ElementInfo>)
    ensures
        content_tokens(elements).len() == 2 * elements.len(),
        forall|k: int|
            0 <= k < elements.len() ==> content_tokens(elements)[2 * k] == (#[trigger] elements[k]).id
                && content_tokens(elements)[2 * k + 1] == elements[k].commit,
    decreases elements.len(),
{
    if elements.len() > 0 {
        lemma_content_tokens(elements.drop_last());
        assert forall|k: int| 0 <= k < elements.len() implies content_tokens(elements)[2 * k] == (
        #[trigger] elements[k]).id && content_tokens(elements)[2 * k + 1] == elements[k].commit by {
            if k < elements.len() - 1 {
                assert(elements.drop_last()[k] == elements[k]);
            }
        }
    }
}

proof fn lemma_rects_tokens(rects: Seq<Rect>)
    ensures
        rects_tokens(rects).len() == 4 * rects.len(),
        forall|k: int|
            0 <= k < rects.len() ==> rects_tokens(rects).subrange(4 * k, 4 * k + 4) =~= rect_tokens(
                #[trigger] rects[k],
            ),
    decreases rects.len(),
{
    if rects.len() > 0 {
        let init = rects.drop_last();
        lemma_rects_tokens(init);
        assert forall|k: int| 0 <= k < rects.len() implies rects_tokens(rects).subrange(
            4 * k,
            4 * k + 4,
        ) =~= rect_tokens(#[trigger] rects[k]) by {
            if k < init.len() {
                assert(init[k] == rects[k]);
                assert(rects_tokens(rects).subrange(4 * k, 4 * k + 4) =~= rects_tokens(
                    init,
                ).subrange(4 * k, 4 * k + 4));
            }
        }
    }
}

proof fn lemma_rect_tokens_injective(a: Rect, b: Rect)
    requires
        rect_tokens(a) == rect_tokens(b),
    ensures
        a == b,
{
    let s = rect_tokens(a);
    let t = rect_tokens(b);
    assert(s[0] == t[0] && s[1] == t[1] && s[2] == t[2] && s[3] == t[3]);
}

/// Two backdrops feed the hasher the same numbers only if they are the same in
/// everything the frost depends on.
#[verifier::rlimit(40)]
pub proof fn law_fingerprint_tells_backdrops_apart(
    survivors_a: Seq<ElementInfo>,
    background_a: Seq<ElementInfo>,
    rect_a: Rect,
    regions_a: Option<Seq<Rect>>,
    survivors_b: Seq<ElementInfo>,
    background_b: Seq<ElementInfo>,
    rect_b: Rect,
    regions_b: Option<Seq<Rect>>,
)
    requires
        survivors_a.len() <= u64::MAX,
        survivors_b.len() <= u64::MAX,
        background_a.len() <= u64::MAX,
        background_b.len() <= u64::MAX,
        regions_a matches Some(r) ==> r.len() <= u64::MAX,
        regions_b matches Some(r) ==> r.len() <= u64::MAX,
        backdrop_tokens(survivors_a, background_a, rect_a, regions_a) == backdrop_tokens(
            survivors_b,
            background_b,
            rect_b,
            regions_b,
        ),
    ensures
        contents(survivors_a) == contents(survivors_b),
        identity_tokens(background_a) == identity_tokens(background_b),
        rect_a == rect_b,
        regions_a == regions_b,
{
    let s = backdrop_tokens(survivors_a, background_a, rect_a, regions_a);
    let t = backdrop_tokens(survivors_b, background_b, rect_b, regions_b);
    assert(s[0] == survivors_a.len() as u64);
    assert(t[0] == survivors_b.len() as u64);
    assert(s[1] == background_a.len() as u64);
    assert(t[1] == background_b.len() as u64);
    assert(s[2] == region_head(regions_a)[0] && s[3] == region_head(regions_a)[1]);
    assert(t[2] == region_head(regions_b)[0] && t[3] == region_head(regions_b)[1]);
    assert(s.subrange(4, 8) =~= rect_tokens(rect_a));
    assert(t.subrange(4, 8) =~= rect_tokens(rect_b));
    lemma_rect_tokens_injective(rect_a, rect_b);
    lemma_content_tokens(survivors_a);
    lemma_content_tokens(survivors_b);
    let n = survivors_a.len() as int;
    let m = background_a.len() as int;
    assert(s.subrange(8, 8 + 2 * n) =~= content_tokens(survivors_a));
    assert(t.subrange(8, 8 + 2 * n) =~= content_tokens(survivors_b));
    assert(contents(survivors_a) =~= contents(survivors_b)) by {
        assert forall|k: int| 0 <= k < n implies contents(survivors_a)[k] == contents(
            survivors_b,
        )[k] by {
            assert(survivors_a[k].id == content_tokens(survivors_a)[2 * k]);
            assert(survivors_b[k].id == content_tokens(survivors_b)[2 * k]);
        }
    }
    assert(s.subrange(8 + 2 * n, 8 + 2 * n + m) =~= identity_tokens(background_a));
    assert(t.subrange(8 + 2 * n, 8 + 2 * n + m) =~= identity_tokens(background_b));
    let base = 8 + 2 * n + m;
    assert(s.subrange(base, s.len() as int) =~= region_tokens(regions_a));
    assert(t.subrange(base, t.len() as int) =~= region_tokens(regions_b));
    if let (Some(ra), Some(rb)) = (regions_a, regions_b) {
        lemma_rects_tokens(ra);
        lemma_rects_tokens(rb);
        assert forall|k: int| 0 <= k < ra.len() implies ra[k] == rb[k] by {
            lemma_rect_tokens_injective(ra[k], rb[k]);
        }
        assert(ra =~= rb);
    }
}

proof fn lemma_same_contents(a: Seq<ElementInfo>, b: Seq<ElementInfo>)
    requires
        contents(a) == contents(b),
    ensures
        content_tokens(a) == content_tokens(b),
{
    assert(contents(a).len() == a.len());
    assert(contents(b).len() == b.len());
    lemma_content_tokens(a);
    lemma_content_tokens(b);
    assert forall|t: int| 0 <= t < content_tokens(a).len() implies content_tokens(a)[t]
        == content_tokens(b)[t] by {
        let k = t / 2;
        assert(contents(a)[k] == contents(b)[k]);
        assert(t == 2 * k || t == 2 * k + 1);
        assert(a[k].id == b[k].id && a[k].commit == b[k].commit);
    }
    assert(content_tokens(a) =~= content_tokens(b));
}

/// The fingerprint of a window depends on nothing else than the identities and
/// contents of the lower elements that reach into its padded rectangle, the
/// identities of the background, and the window's rectangle and region: two
/// frames that agree on these have the same fingerprint, whatever the
/// background's contents and the other lower elements. The window is occluded
/// exactly if some lower element reaches into the rectangle.
pub proof fn law_fingerprint_sees_what_reaches(
    lower_a: Seq<ElementInfo>,
    background_a: Seq<ElementInfo>,
    lower_b: Seq<ElementInfo>,
    background_b: Seq<ElementInfo>,
    window_rect: Rect,
    pad: int,
    regions: Option<Seq<Rect>>,
)
    requires
        contents(reaching(lower_a, padded(window_rect, pad))) == contents(
            reaching(lower_b, padded(window_rect, pad)),
        ),
        identity_tokens(background_a) == identity_tokens(background_b),
    ensures
        fingerprint_of(lower_a, background_a, window_rect, pad, regions) == fingerprint_of(
            lower_b,
            background_b,
            window_rect,
            pad,
            regions,
        ),
        fingerprint_of(lower_a, background_a, window_rect, pad, regions).occluded_by_lower
            <==> reaching(lower_a, padded(window_rect, pad)).len() > 0,
{
    let near_a = reaching(lower_a, padded(window_rect, pad));
    let near_b = reaching(lower_b, padded(window_rect, pad));
    lemma_same_contents(near_a, near_b);
    assert(contents(near_a).len() == near_a.len());
    assert(contents(near_b).len() == near_b.len());
    assert(identity_tokens(background_a).len() == background_a.len());
    assert(identity_tokens(background_b).len() == background_b.len());
}

/// New content in the scene background leaves the fingerprint as it is.
pub proof fn law_background_content_is_invisible(
    lower: Seq<ElementInfo>,
    before: Seq<ElementInfo>,
    after: Seq<ElementInfo>,
    window_rect: Rect,
    pad: int,
    regions: Option<Seq<Rect>>,
)
    requires
        identity_tokens(before) == identity_tokens(after),
    ensures
        fingerprint_of(lower, before, window_rect, pad, regions) == fingerprint_of(
            lower,
            after,
            window_rect,
            pad,
            regions,
        ),
{
    assert(identity_tokens(before).len() == before.len());
    assert(identity_tokens(after).len() == after.len());
}

/// An element clear of the padded capture changes nothing, wherever in the
/// stack it appears.
pub proof fn law_out_of_reach_is_invisible(
    lower: Seq<ElementInfo>,
    at: int,
    extra: ElementInfo,
    background: Seq<ElementInfo>,
    window_rect: Rect,
    pad: int,
    regions: Option<Seq<Rect>>,
)
    requires
        0 <= at <= lower.len(),
        !extra.geometry.meets(padded(window_rect, pad)),
    ensures
        fingerprint_of(lower.insert(at, extra), background, window_rect, pad, regions)
            == fingerprint_of(lower, background, window_rect, pad, regions),
{
    let capture = padded(window_rect, pad);
    let pred = |e: ElementInfo| e.geometry.meets(capture);
    let head = lower.subrange(0, at);
    let tail = lower.subrange(at, lower.len() as int);
    assert(lower =~= head + tail);
    assert(lower.insert(at, extra) =~= (head + seq![extra]) + tail);
    Seq::filter_distributes_over_add(head, tail, pred);
    Seq::filter_distributes_over_add(head + seq![extra], tail, pred);
    Seq::filter_distributes_over_add(head, seq![extra], pred);
    seq![extra].lemma_all_neg_filter_empty(pred);
}

/// The window is occluded exactly if some lower element reaches into the
/// capture.
pub proof fn law_occlusion_means_an_element_reaches(
    lower: Seq<ElementInfo>,
    background: Seq<ElementInfo>,
    window_rect: Rect,
    pad: int,
    regions: Option<Seq<Rect>>,
)
    ensures
        fingerprint_of(lower, background, window_rect, pad, regions).occluded_by_lower <==> exists|
            k: int,
        |
            0 <= k < lower.len() && (#[trigger] lower[k]).geometry.meets(padded(window_rect, pad)),
{
    let pred = |e: ElementInfo| e.geometry.meets(padded(window_rect, pad));
    let kept = lower.filter(pred);
    broadcast use Seq::lemma_filter_contains, Seq::lemma_filter_contains_rev;

    if exists|k: int| 0 <= k < lower.len() && pred(#[trigger] lower[k]) {
        let k = choose|k: int| 0 <= k < lower.len() && pred(#[trigger] lower[k]);
        assert(kept.contains(lower[k]));
    }
    if kept.len() > 0 {
        lower.lemma_filter_pred(pred, 0);
        assert(kept.contains(kept[0]));
        assert(lower.contains(kept[0]));
        let k = choose|k: int| 0 <= k < lower.len() && lower[k] == kept[0];
        assert(pred(lower[k]));
    }
}

/// A structural change is a change of the signature; a change of counters alone
/// is not structural.
pub proof fn law_structure_is_part_of_the_signature(
    before: Seq<(u64, u64)>,
    after: Seq<(u64, u64)>,
)
    ensures
        structure_differs(before, after) ==> before != after,
        !structure_differs(before, after) <==> before.map_values(|p: (u64, u64)| p.0)
            == after.map_values(|p: (u64, u64)| p.0),
{
    let ids = |p: (u64, u64)| p.0;
    if !structure_differs(before, after) {
        assert(before.map_values(ids) =~= after.map_values(ids));
    } else if before.len() == after.len() {
        let k = choose|k: int| 0 <= k < before.len() && (#[trigger] before[k]).0 != after[k].0;
        assert(before.map_values(ids)[k] != after.map_values(ids)[k]);
    } else {
        assert(before.map_values(ids).len() != after.map_values(ids).len());
    }
}

/// A window's fingerprint hashes all that its frost is taken from: what lies lower
/// and reaches into its padded rectangle, the background, its own rectangle and
/// its client's region.
pub proof fn law_fingerprint_hashes_the_backdrop(
    lower: Seq<ElementInfo>,
    background: Seq<ElementInfo>,
    window_rect: Rect,
    pad: int,
    regions: Option<Seq<Rect>>,
)
    ensures
        fingerprint_of(lower, background, window_rect, pad, regions).hash
            == DefaultHasher::spec_finish(
            backdrop_tokens(
                reaching(lower, padded(window_rect, pad)),
                background,
                window_rect,
                regions,
            ).map_values(|t: u64| spec_u64_to_le_bytes(t)),
        ),
{
}

/// An element reaches into a capture exactly if it is there and its rectangle
/// overlaps the capture.
pub proof fn law_reaching_is_overlapping(lower: Seq<ElementInfo>, capture: Rect, k: int)
    requires
        0 <= k < lower.len(),
    ensures
        lower[k].geometry.meets(capture) ==> reaching(lower, capture).contains(lower[k]),
        forall|i: int|
            0 <= i < reaching(lower, capture).len() ==> (#[trigger] reaching(
                lower,
                capture,
            )[i]).geometry.meets(capture),
{
    lower.filter_lemma(|e: ElementInfo| e.geometry.meets(capture));
}

/// A signature tells each element's identity and counter, in order.
pub proof fn law_signature_tells_each_element(elements: Seq<ElementInfo>, k: int)
    requires
        0 <= k < elements.len(),
    ensures
        signature_of(elements).len() == elements.len(),
        signature_of(elements)[k].0 == elements[k].id,
        signature_of(elements)[k].1 == elements[k].commit,
        contents(elements)[k] == signature_of(elements)[k],
        identity_tokens(elements)[k] == elements[k].id,
{
}

} // verus!
