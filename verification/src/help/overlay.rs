//! When the overlay is drawn, and what a drawn card is good for.

use crate::geometry::{Point, Size, max_of};
use crate::help::card::SCREEN_MARGIN;
use crate::help::rows::{Row, RowView, row_views};
use crate::text::same_text;
use vstd::prelude::*;
use vstd::string::StringExecFns;

verus! {

/// Space for the card on an output, in buffer pixels.
pub open spec fn card_space(viewport: Size, s: int) -> (int, int) {
    (
        max_of(viewport.w - 2 * SCREEN_MARGIN, 200) * s,
        max_of(viewport.h - 2 * SCREEN_MARGIN, 120) * s,
    )
}

/// Space for the card on an output, in buffer pixels: the output less a margin,
/// but no less than a minimum.
pub fn overlay_bounds(viewport: Size, s: i32) -> (space: (i32, i32))
    requires
        1 <= s,
        card_space(viewport, s as int).0 <= i32::MAX,
        card_space(viewport, s as int).1 <= i32::MAX,
    ensures
        (space.0 as int, space.1 as int) == card_space(viewport, s as int),
{
    let w: i64 = viewport.w as i64 - 96;
    let h: i64 = viewport.h as i64 - 96;
    let w: i64 = if w < 200 {
        200
    } else {
        w
    };
    let h: i64 = if h < 120 {
        120
    } else {
        h
    };
    proof {
        assert(0 <= w * s && 0 <= h * s) by (nonlinear_arith)
            requires
                0 <= w,
                0 <= h,
                0 <= s,
        ;
    }
    ((w * s as i64) as i32, (h * s as i64) as i32)
}

/// The digit of a row's category.
pub open spec fn category_digit(rank: int) -> char {
    if rank == 0 {
        '0'
    } else if rank == 1 {
        '1'
    } else if rank == 2 {
        '2'
    } else if rank == 3 {
        '3'
    } else if rank == 4 {
        '4'
    } else {
        '5'
    }
}

/// A row's part of the signature.
pub open spec fn row_signature(row: RowView) -> Seq<char> {
    seq![category_digit(row.category.rank()), '\u{1}'] + row.keys + seq!['\u{1}'] + row.desc
}

/// The text that tells one list of rows from another.
pub open spec fn signature_of(rows: Seq<RowView>) -> Seq<char>
    decreases rows.len(),
{
    if rows.len() == 0 {
        Seq::empty()
    } else if rows.len() == 1 {
        row_signature(rows[0])
    } else {
        signature_of(rows.drop_last()) + seq!['\u{2}'] + row_signature(rows.last())
    }
}

fn digit(rank: u8) -> (c: char)
    ensures
        c == category_digit(rank as int),
{
    if rank == 0 {
        '0'
    } else if rank == 1 {
        '1'
    } else if rank == 2 {
        '2'
    } else if rank == 3 {
        '3'
    } else if rank == 4 {
        '4'
    } else {
        '5'
    }
}

/// The text that tells one list of rows from another.
pub fn signature(rows: &[Row]) -> (text: String)
    ensures
        text@ == signature_of(row_views(rows@)),
{
    let ghost views = row_views(rows@);
    let mut s = String::new();
    let mut i: usize = 0;
    assert(s@ =~= signature_of(views.subrange(0, 0)));
    while i < rows.len()
        invariant
            i <= rows@.len(),
            views == row_views(rows@),
            s@ == signature_of(views.subrange(0, i as int)),
        decreases rows.len() - i,
    {
        let ghost before = s@;
        let ghost row = views[i as int];
        assert(row == rows@[i as int]@);
        if i > 0 {
            s.push('\u{2}');
        }
        s.push(digit(rows[i].category.index()));
        s.push('\u{1}');
        s.append(rows[i].keys.as_str());
        s.push('\u{1}');
        s.append(rows[i].desc.as_str());
        proof {
            let next = views.subrange(0, i + 1);
            assert(next.drop_last() =~= views.subrange(0, i as int));
            assert(next.last() == row);
            if i > 0 {
                assert(s@ =~= before + seq!['\u{2}'] + row_signature(row));
            } else {
                assert(before =~= Seq::<char>::empty());
                assert(s@ =~= row_signature(row));
            }
        }
        i = i + 1;
    }
    assert(views.subrange(0, i as int) =~= views);
    s
}

/// What a card was drawn for.
pub struct CardKey {
    pub signature: String,
    pub w: i32,
    pub h: i32,
    pub scale: i32,
}

/// A drawn card of an output.
pub struct HelpOverlayCache<B> {
    pub key: CardKey,
    pub buffer: B,
    /// In buffer pixels.
    pub size: Size,
}

impl<B> HelpOverlayCache<B> {
    /// Whether the card can be shown for a key: it was drawn for the same rows,
    /// space and scale.
    pub fn is_for(&self, key: &CardKey) -> (r: bool)
        ensures
            r == (self.key.signature@ == key.signature@ && self.key.w == key.w && self.key.h
                == key.h && self.key.scale == key.scale),
    {
        same_text(self.key.signature.as_str(), key.signature.as_str()) && self.key.w == key.w
            && self.key.h == key.h && self.key.scale == key.scale
    }
}

/// What becomes of an output's card in a frame.
#[derive(Clone, Copy, Debug, PartialEq, Eq, Structural)]
pub enum OverlayStep {
    /// Nothing is shown, and a drawn card is dropped.
    Drop,
    /// The drawn card is shown again.
    Keep,
    /// A new card is drawn.
    Draw,
}

/// Decides what becomes of an output's card: it is shown while the overlay is,
/// once fonts are loaded and if there is a row to show; it is drawn anew only
/// when it was drawn for something else.
pub fn build_help_overlay_elements<B>(
    visible: bool,
    fonts_ready: bool,
    rows: &[Row],
    cached: Option<&HelpOverlayCache<B>>,
    key: &CardKey,
) -> (step: OverlayStep)
    ensures
        step is Drop <==> !visible || !fonts_ready || rows@.len() == 0,
        step is Keep <==> visible && fonts_ready && rows@.len() > 0 && cached is Some
            && cached->0.key.signature@ == key.signature@ && cached->0.key.w == key.w
            && cached->0.key.h == key.h && cached->0.key.scale == key.scale,
{
    if !visible || !fonts_ready || rows.len() == 0 {
        return OverlayStep::Drop;
    }
    match cached {
        Some(c) => if c.is_for(key) {
            OverlayStep::Keep
        } else {
            OverlayStep::Draw
        },
        None => OverlayStep::Draw,
    }
}

/// Half of a number, rounded towards 0.
pub open spec fn half(d: int) -> int {
    if d >= 0 {
        d / 2
    } else {
        -((-d) / 2)
    }
}

fn half_of(d: i64) -> (h: i64)
    requires
        -0x1_0000_0000 <= d <= 0x1_0000_0000,
    ensures
        h == half(d as int),
{
    if d >= 0 {
        d / 2
    } else {
        -((-d) / 2)
    }
}

/// Where a card goes on its output, in logical pixels: at the centre.
pub fn card_origin(viewport: Size, card: Size, s: i32) -> (at: Point)
    requires
        1 <= s,
        0 <= viewport.w,
        0 <= viewport.h,
        0 <= card.w,
        0 <= card.h,
    ensures
        at.x == half(viewport.w - card.w as int / s as int),
        at.y == half(viewport.h - card.h as int / s as int),
{
    let w: i32 = card.w / s;
    let h: i32 = card.h / s;
    proof {
        assert(0 <= card.w as int / s as int <= card.w) by (nonlinear_arith)
            requires
                0 <= card.w,
                1 <= s,
        ;
        assert(0 <= card.h as int / s as int <= card.h) by (nonlinear_arith)
            requires
                0 <= card.h,
                1 <= s,
        ;
    }
    Point {
        x: half_of(viewport.w as i64 - w as i64) as i32,
        y: half_of(viewport.h as i64 - h as i64) as i32,
    }
}

/// A card no wider than the output stays on it: at least as much room is left
/// on its far side as on its near side, and the two differ by at most a pixel.
pub proof fn law_card_is_centred(viewport: int, card: int)
    requires
        0 <= card <= viewport,
    ensures
        0 <= half(viewport - card),
        half(viewport - card) + card <= viewport,
        0 <= (viewport - card - half(viewport - card)) - half(viewport - card) <= 1,
{
}

/// A card has the output's room less a margin on every side, in buffer pixels, and
/// never less than the least.
pub proof fn law_card_leaves_a_margin(viewport: Size, s: int)
    requires
        s >= 1,
    ensures
        ({
            let (w, h) = card_space(viewport, s);
            &&& viewport.w - 2 * SCREEN_MARGIN >= 200 ==> w + 2 * (SCREEN_MARGIN * s)
                == viewport.w * s
            &&& viewport.h - 2 * SCREEN_MARGIN >= 120 ==> h + 2 * (SCREEN_MARGIN * s)
                == viewport.h * s
            &&& viewport.w - 2 * SCREEN_MARGIN < 200 ==> w == 200 * s
            &&& viewport.h - 2 * SCREEN_MARGIN < 120 ==> h == 120 * s
        }),
{
    let m = SCREEN_MARGIN as int;
    assert((viewport.w - 2 * m) * s + 2 * (m * s) == viewport.w * s) by (nonlinear_arith);
    assert((viewport.h - 2 * m) * s + 2 * (m * s) == viewport.h * s) by (nonlinear_arith);
}

/// A row's text has neither of the characters that part rows and columns.
pub open spec fn signable(row: RowView) -> bool {
    &&& !row.keys.contains('\u{1}')
    &&& !row.keys.contains('\u{2}')
    &&& !row.desc.contains('\u{1}')
    &&& !row.desc.contains('\u{2}')
}

proof fn lemma_row_told_apart(a: RowView, b: RowView)
    requires
        signable(a),
        signable(b),
        row_signature(a) == row_signature(b),
    ensures
        a == b,
{
    let s = row_signature(a);
    let t = row_signature(b);
    assert(s[0] == category_digit(a.category.rank()));
    assert(t[0] == category_digit(b.category.rank()));
    crate::help::rows::law_categories_have_their_place(a.category, b.category, 0);
    let (m, n) = (a.keys.len() as int, b.keys.len() as int);
    assert(s[2 + m] == '\u{1}');
    assert(t[2 + n] == '\u{1}');
    if m < n {
        assert(t[2 + m] == b.keys[m]);
        assert(b.keys.contains(b.keys[m]));
    }
    if n < m {
        assert(s[2 + n] == a.keys[n]);
        assert(a.keys.contains(a.keys[n]));
    }
    assert(a.keys =~= s.subrange(2, 2 + m));
    assert(b.keys =~= t.subrange(2, 2 + n));
    assert(a.desc =~= s.subrange(3 + m, s.len() as int));
    assert(b.desc =~= t.subrange(3 + n, t.len() as int));
}

proof fn lemma_row_has_no_part(row: RowView, i: int)
    requires
        signable(row),
        0 <= i < row_signature(row).len(),
    ensures
        row_signature(row)[i] != '\u{2}',
        row_signature(row).len() >= 3,
{
    let s = row_signature(row);
    let m = row.keys.len() as int;
    if 2 <= i < 2 + m {
        assert(s[i] == row.keys[i - 2]);
        assert(row.keys.contains(row.keys[i - 2]));
    } else if i > 2 + m {
        assert(s[i] == row.desc[i - 3 - m]);
        assert(row.desc.contains(row.desc[i - 3 - m]));
    }
}

/// A card that was drawn for other rows is never taken for these: lists of rows
/// with the same signature are the same, as long as no text holds the characters
/// that part them.
pub proof fn law_signature_tells_lists_apart(a: Seq<RowView>, b: Seq<RowView>)
    requires
        forall|i: int| 0 <= i < a.len() ==> signable(#[trigger] a[i]),
        forall|i: int| 0 <= i < b.len() ==> signable(#[trigger] b[i]),
        signature_of(a) == signature_of(b),
    ensures
        a == b,
    decreases a.len(),
{
    let s = signature_of(a);
    if a.len() == 0 {
        if b.len() > 0 {
            lemma_signature_ends(b);
        }
        assert(a =~= b);
    } else if b.len() == 0 {
        lemma_signature_ends(a);
    } else {
        lemma_signature_ends(a);
        lemma_signature_ends(b);
        let (p, q) = (row_signature(a.last()), row_signature(b.last()));
        let (m, n) = (s.len() - p.len(), s.len() - q.len());
        if m < n {
            assert(s[n - 1] == p[n - 1 - m]);
            lemma_row_has_no_part(a.last(), n - 1 - m);
        }
        if n < m {
            assert(s[m - 1] == q[m - 1 - n]);
            lemma_row_has_no_part(b.last(), m - 1 - n);
        }
        assert(p =~= s.subrange(m, s.len() as int));
        assert(q =~= s.subrange(n, s.len() as int));
        lemma_row_told_apart(a.last(), b.last());
        let (c, d) = (a.drop_last(), b.drop_last());
        if a.len() > 1 && b.len() > 1 {
            assert(signature_of(c) =~= s.subrange(0, m - 1));
            assert(signature_of(d) =~= s.subrange(0, n - 1));
            assert(forall|i: int| 0 <= i < c.len() ==> c[i] == #[trigger] a[i]);
            assert(forall|i: int| 0 <= i < d.len() ==> d[i] == #[trigger] b[i]);
            law_signature_tells_lists_apart(c, d);
        }
        assert(a =~= c.push(a.last()));
        assert(b =~= d.push(b.last()));
        assert(a.len() == 1 <==> b.len() == 1);
        if a.len() == 1 {
            assert(c =~= d);
        }
    }
}

proof fn lemma_signature_ends(a: Seq<RowView>)
    requires
        a.len() > 0,
        forall|i: int| 0 <= i < a.len() ==> signable(#[trigger] a[i]),
    ensures
        ({
            let s = signature_of(a);
            let p = row_signature(a.last());
            let m = s.len() - p.len();
            &&& p.len() >= 3
            &&& a.len() == 1 ==> s == p
            &&& a.len() > 1 ==> m > 0 && s == signature_of(a.drop_last()) + seq!['\u{2}'] + p
                && s[m - 1] == '\u{2}'
        }),
{
    assert(signable(a[a.len() - 1]));
}

/// A category's digit counts from zero in the order of the categories.
pub proof fn law_digit_counts_the_categories(rank: int)
    requires
        0 <= rank <= 5,
    ensures
        category_digit(rank) as int == '0' as int + rank,
{
}

/// The signature of a list begins with that of its first rows, and the last row's
/// follows behind a parting character.
pub proof fn law_signature_grows_with_its_rows(rows: Seq<RowView>, row: RowView)
    ensures
        rows.len() == 0 ==> signature_of(rows.push(row)).len() == row.keys.len()
            + row.desc.len() + 3,
        rows.len() > 0 ==> {
            let text = signature_of(rows.push(row));
            &&& text.len() == signature_of(rows).len() + row.keys.len() + row.desc.len() + 4
            &&& text.subrange(0, signature_of(rows).len() as int) == signature_of(rows)
            &&& text[signature_of(rows).len() as int] == '\u{2}'
            &&& text.subrange(signature_of(rows).len() + 1int, text.len() as int) == signature_of(
                seq![row],
            )
        },
{
    let all = rows.push(row);
    assert(all.drop_last() =~= rows);
    if rows.len() == 0 {
        assert(all[0] == row);
    } else {
        let text = signature_of(all);
        let one = signature_of(seq![row]);
        assert(one =~= row_signature(row));
        assert(text =~= signature_of(rows) + seq!['\u{2}'] + one);
        assert(text.subrange(0, signature_of(rows).len() as int) =~= signature_of(rows));
        assert(text.subrange(signature_of(rows).len() + 1int, text.len() as int) =~= one);
    }
}

} // verus!
