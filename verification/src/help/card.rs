//! Where the overlay's text goes on its card, and the card itself.

use crate::geometry::{max_of, min_of};
use crate::help::rows::{
    Block, BlockView, Category, Row, RowView, block_views, category_at, column_views, columns_of,
    layout_columns, row_views,
};
use crate::text::chars_of;
use vstd::prelude::*;
use vstd::string::StringExecFns;

verus! {

/// Layout metrics in logical pixels; the buffer scale multiplies them.
pub const TITLE_H: i32 = 17;

pub const PAD: i32 = 26;

pub const TITLE_GAP: i32 = 14;

pub const ROW_H: i32 = 21;

pub const KEY_DESC_GAP: i32 = 22;

pub const COL_GAP: i32 = 44;

pub const DESC_MAX: i32 = 360;

pub const RADIUS: i32 = 18;

/// Margin from the screen edges; bounds how large the card may grow.
pub const SCREEN_MARGIN: i32 = 48;

/// Pixels that text takes up in the fonts of the card.
pub struct Measures {
    /// For each row, its keys and its description.
    pub keys: Vec<i32>,
    pub descs: Vec<i32>,
    /// For each category, its heading.
    pub headers: Vec<i32>,
    pub title: i32,
}

impl Measures {
    pub open spec fn valid(&self, rows: int) -> bool {
        &&& self.keys@.len() == rows
        &&& self.descs@.len() == rows
        &&& self.headers@.len() == 6
        &&& self.title >= 0
        &&& forall|i: int| 0 <= i < rows ==> 0 <= #[trigger] self.keys@[i]
        &&& forall|i: int| 0 <= i < rows ==> 0 <= #[trigger] self.descs@[i]
        &&& forall|i: int| 0 <= i < 6 ==> 0 <= #[trigger] self.headers@[i]
    }
}

/// The largest of some widths, 0 if there are none.
pub open spec fn widest(widths: Seq<i32>) -> int
    decreases widths.len(),
{
    if widths.len() == 0 {
        0
    } else {
        max_of(widest(widths.drop_last()), widths.last() as int)
    }
}

/// The widest heading among the first `n` categories that have rows.
pub open spec fn widest_header(rows: Seq<RowView>, headers: Seq<i32>, n: int) -> int
    decreases n,
{
    if n <= 0 {
        0
    } else if rows.any(|r: RowView| r.category == category_at(n - 1)) {
        max_of(widest_header(rows, headers, n - 1), headers[n - 1] as int)
    } else {
        widest_header(rows, headers, n - 1)
    }
}

/// Width of the descriptions: the widest of them and of the headings, up to a
/// limit.
pub open spec fn desc_width(
    rows: Seq<RowView>,
    descs: Seq<i32>,
    headers: Seq<i32>,
    s: int,
) -> int {
    min_of(
        max_of(widest(descs), widest_header(rows, headers, 6)),
        DESC_MAX * s,
    )
}

fn widest_of(widths: &[i32]) -> (w: i32)
    requires
        forall|i: int| 0 <= i < widths@.len() ==> 0 <= #[trigger] widths@[i],
    ensures
        w == widest(widths@),
        w >= 0,
{
    let mut w: i32 = 0;
    let mut i: usize = 0;
    assert(widths@.subrange(0, 0).len() == 0);
    while i < widths.len()
        invariant
            i <= widths@.len(),
            w >= 0,
            w == widest(widths@.subrange(0, i as int)),
        decreases widths.len() - i,
    {
        proof {
            let next = widths@.subrange(0, i + 1);
            assert(next.drop_last() =~= widths@.subrange(0, i as int));
            assert(next.last() == widths@[i as int]);
        }
        if widths[i] > w {
            w = widths[i];
        }
        i = i + 1;
    }
    assert(widths@.subrange(0, i as int) =~= widths@);
    w
}

fn has_category(rows: &[Row], category: Category) -> (r: bool)
    ensures
        r == row_views(rows@).any(|r: RowView| r.category == category),
{
    let ghost views = row_views(rows@);
    let ghost pred = |r: RowView| r.category == category;
    let mut i: usize = 0;
    while i < rows.len()
        invariant
            i <= rows@.len(),
            views == row_views(rows@),
            pred == (|r: RowView| r.category == category),
            forall|k: int| 0 <= k < i ==> !pred(#[trigger] views[k]),
        decreases rows.len() - i,
    {
        assert(views[i as int] == rows@[i as int]@);
        if rows[i].category == category {
            assert(pred(views[i as int]));
            return true;
        }
        i = i + 1;
    }
    false
}

fn widest_header_of(rows: &[Row], headers: &[i32]) -> (w: i32)
    requires
        headers@.len() == 6,
        forall|i: int| 0 <= i < 6 ==> 0 <= #[trigger] headers@[i],
    ensures
        w == widest_header(row_views(rows@), headers@, 6),
        w >= 0,
{
    let mut w: i32 = 0;
    let mut n: u8 = 0;
    while n < 6
        invariant
            n <= 6,
            w >= 0,
            headers@.len() == 6,
            w == widest_header(row_views(rows@), headers@, n as int),
        decreases 6 - n,
    {
        let category = crate::help::rows::nth_category(n);
        if has_category(rows, category) && headers[n as usize] > w {
            w = headers[n as usize];
        }
        n = n + 1;
    }
    w
}

/// Lines that fit under the title in one column.
pub open spec fn lines_fitting(avail_h: int, s: int) -> int {
    max_of(avail_h - 2 * (PAD * s) - (TITLE_H + TITLE_GAP) * s, ROW_H * s) / (ROW_H * s)
}

/// Lines that fit under the title in one column; at least one.
pub fn lines_per_column(avail_h: i32, s: i32) -> (lines: usize)
    requires
        1 <= s,
    ensures
        lines == lines_fitting(avail_h as int, s as int),
        lines >= 1,
{
    let row_h: i64 = 21 * s as i64;
    let free: i64 = avail_h as i64 - 52 * s as i64 - 31 * s as i64;
    let body: i64 = if free > row_h {
        free
    } else {
        row_h
    };
    let lines: i64 = body / row_h;
    assert(1 <= lines <= body) by (nonlinear_arith)
        requires
            lines == body / row_h,
            1 <= row_h <= body,
    ;
    lines as usize
}

/// Sizes of a card.
#[derive(Clone, Copy, Debug, PartialEq, Eq, Structural)]
pub struct CardSize {
    pub w: i32,
    pub h: i32,
    pub key_w: i32,
    pub desc_w: i32,
}

/// Distance from one column to the next.
pub open spec fn column_step(key_w: int, desc_w: int, s: int) -> int {
    key_w + KEY_DESC_GAP * s + desc_w + COL_GAP * s
}

/// Width that a card with `n` columns wants.
pub open spec fn natural_width(key_w: int, desc_w: int, n: int, title_w: int, s: int) -> int {
    let body = n * (key_w + KEY_DESC_GAP * s + desc_w) + (n - 1) * (COL_GAP * s);
    2 * (PAD * s) + max_of(body, title_w)
}

/// Width of a card with `n` columns.
pub open spec fn card_width(
    key_w: int,
    desc_w: int,
    n: int,
    title_w: int,
    avail_w: int,
    s: int,
) -> int {
    min_of(natural_width(key_w, desc_w, n, title_w, s), max_of(avail_w, 1))
}

/// Height of a card whose longest column has `tallest` lines.
pub open spec fn card_height(tallest: int, s: int) -> int {
    2 * (PAD * s) + (TITLE_H + TITLE_GAP) * s + tallest * (ROW_H * s)
}

/// Length of the longest column.
pub open spec fn tallest_column(columns: Seq<Seq<BlockView>>) -> int
    decreases columns.len(),
{
    if columns.len() == 0 {
        0
    } else {
        max_of(tallest_column(columns.drop_last()), columns.last().len() as int)
    }
}

/// What a line of text on the card is.
#[derive(Clone, Copy, Debug, PartialEq, Eq, Structural)]
pub enum BandStyle {
    Title,
    Header,
    Keys,
    Desc,
}

/// A line of text on the card: where it starts, and the band it is centred in.
pub struct Band {
    pub style: BandStyle,
    pub text: String,
    pub x: i32,
    pub y: i32,
    pub h: i32,
}

pub struct BandView {
    pub style: BandStyle,
    pub text: Seq<char>,
    pub x: int,
    pub y: int,
    pub h: int,
}

impl View for Band {
    type V = BandView;

    open spec fn view(&self) -> BandView {
        BandView {
            style: self.style,
            text: self.text@,
            x: self.x as int,
            y: self.y as int,
            h: self.h as int,
        }
    }
}

/// The lines of a block at a place.
pub open spec fn block_bands(
    block: BlockView,
    x: int,
    y: int,
    key_w: int,
    s: int,
) -> Seq<BandView> {
    match block {
        BlockView::Header(text) => seq![
            BandView { style: BandStyle::Header, text, x, y, h: ROW_H * s },
        ],
        BlockView::Row { keys, desc } => seq![
            BandView { style: BandStyle::Keys, text: keys, x, y, h: ROW_H * s },
            BandView {
                style: BandStyle::Desc,
                text: desc,
                x: x + key_w + KEY_DESC_GAP * s,
                y,
                h: ROW_H * s,
            },
        ],
    }
}

/// The lines of the first `k` blocks of a column.
pub open spec fn column_bands(
    column: Seq<BlockView>,
    k: int,
    x: int,
    key_w: int,
    s: int,
) -> Seq<BandView>
    decreases k,
{
    if k <= 0 {
        Seq::empty()
    } else {
        column_bands(column, k - 1, x, key_w, s) + block_bands(
            column[k - 1],
            x,
            block_y(k - 1, s),
            key_w,
            s,
        )
    }
}

/// Top of the line of block `k`.
pub open spec fn block_y(k: int, s: int) -> int {
    PAD * s + (TITLE_H + TITLE_GAP) * s + k * (ROW_H * s)
}

/// Left edge of column `c`.
pub open spec fn column_x(c: int, key_w: int, desc_w: int, s: int) -> int {
    PAD * s + c * column_step(key_w, desc_w, s)
}

/// The lines of the first `n` columns.
pub open spec fn body_bands(
    columns: Seq<Seq<BlockView>>,
    n: int,
    key_w: int,
    desc_w: int,
    s: int,
) -> Seq<BandView>
    decreases n,
{
    if n <= 0 {
        Seq::empty()
    } else {
        body_bands(columns, n - 1, key_w, desc_w, s) + column_bands(
            columns[n - 1],
            columns[n - 1].len() as int,
            column_x(n - 1, key_w, desc_w, s),
            key_w,
            s,
        )
    }
}

/// The line of the title.
pub open spec fn title_band(s: int) -> BandView {
    BandView {
        style: BandStyle::Title,
        text: "driftwm — keyboard shortcuts"@,
        x: PAD * s,
        y: PAD * s,
        h: TITLE_H * s,
    }
}

pub open spec fn band_views(bands: Seq<Band>) -> Seq<BandView> {
    bands.map_values(|b: Band| b@)
}

/// The card's extent, as it wants to be, fits the coordinates' type.
pub open spec fn places_fit(
    columns: Seq<Seq<BlockView>>,
    key_w: int,
    desc_w: int,
    title_w: int,
    s: int,
) -> bool {
    &&& card_height(tallest_column(columns), s) <= i32::MAX
    &&& natural_width(key_w, desc_w, columns.len() as int, title_w, s) <= i32::MAX
}

proof fn lemma_tallest(columns: Seq<Seq<BlockView>>, c: int)
    requires
        0 <= c < columns.len(),
    ensures
        columns[c].len() <= tallest_column(columns),
    decreases columns.len(),
{
    if c < columns.len() - 1 {
        lemma_tallest(columns.drop_last(), c);
    }
}

fn longest_column(columns: &Vec<Vec<Block>>) -> (n: usize)
    ensures
        n == tallest_column(column_views(columns@)),
{
    let ghost views = column_views(columns@);
    let mut n: usize = 0;
    let mut i: usize = 0;
    assert(views.subrange(0, 0).len() == 0);
    while i < columns.len()
        invariant
            i <= columns@.len(),
            views == column_views(columns@),
            n == tallest_column(views.subrange(0, i as int)),
        decreases columns.len() - i,
    {
        proof {
            let next = views.subrange(0, i + 1);
            assert(next.drop_last() =~= views.subrange(0, i as int));
            assert(next.last() == block_views(columns@[i as int]@));
        }
        if columns[i].len() > n {
            n = columns[i].len();
        }
        i = i + 1;
    }
    assert(views.subrange(0, i as int) =~= views);
    n
}

/// A card ready to be drawn: its size, and its lines of text in drawing order.
pub struct CardPlan {
    pub size: CardSize,
    pub radius: i32,
    pub bands: Vec<Band>,
}

fn push_block(bands: &mut Vec<Band>, block: &Block, x: i32, y: i32, key_w: i32, s: i32)
    requires
        1 <= s,
        0 <= x,
        0 <= key_w,
        ROW_H * s <= i32::MAX,
        x + key_w + KEY_DESC_GAP * s <= i32::MAX,
    ensures
        band_views(final(bands)@) == band_views(old(bands)@) + block_bands(
            block@,
            x as int,
            y as int,
            key_w as int,
            s as int,
        ),
{
    let h: i32 = 21 * s;
    match block {
        Block::Header(text) => {
            bands.push(Band { style: BandStyle::Header, text: text.clone(), x, y, h });
        },
        Block::Row { keys, desc } => {
            bands.push(Band { style: BandStyle::Keys, text: keys.clone(), x, y, h });
            bands.push(
                Band {
                    style: BandStyle::Desc,
                    text: desc.clone(),
                    x: x + key_w + 22 * s,
                    y,
                    h,
                },
            );
        },
    }
    assert(band_views(bands@) =~= band_views(old(bands)@) + block_bands(
        block@,
        x as int,
        y as int,
        key_w as int,
        s as int,
    ));
}

proof fn lemma_rows_fit(k: int, tallest: int, s: int)
    requires
        0 <= k < tallest,
        1 <= s,
        card_height(tallest, s) <= i32::MAX,
    ensures
        0 <= block_y(k, s),
        block_y(k, s) + ROW_H * s <= card_height(tallest, s) - PAD * s,
{
    assert(k * (ROW_H * s) + ROW_H * s <= tallest * (ROW_H * s)) by (nonlinear_arith)
        requires
            k + 1 <= tallest,
            1 <= s,
    ;
    assert(0 <= k * (ROW_H * s)) by (nonlinear_arith)
        requires
            0 <= k,
            1 <= s,
    ;
}

proof fn lemma_columns_fit(c: int, n: int, key_w: int, desc_w: int, title_w: int, s: int)
    requires
        0 <= c < n,
        1 <= s,
        0 <= key_w,
        0 <= desc_w,
    ensures
        0 <= column_x(c, key_w, desc_w, s),
        column_x(c, key_w, desc_w, s) + key_w + KEY_DESC_GAP * s <= natural_width(
            key_w,
            desc_w,
            n,
            title_w,
            s,
        ),
{
    let step = column_step(key_w, desc_w, s);
    assert(c * step + step <= n * step) by (nonlinear_arith)
        requires
            c + 1 <= n,
            0 <= step,
    ;
    assert(0 <= c * step) by (nonlinear_arith)
        requires
            0 <= c,
            0 <= step,
    ;
    assert(n * (key_w + KEY_DESC_GAP * s + desc_w) + (n - 1) * (COL_GAP * s) == n * step - COL_GAP
        * s) by (nonlinear_arith)
        requires
            step == key_w + KEY_DESC_GAP * s + desc_w + COL_GAP * s,
    ;
}

fn push_column(
    bands: &mut Vec<Band>,
    column: &Vec<Block>,
    x: i32,
    key_w: i32,
    s: i32,
    tallest: usize,
)
    requires
        1 <= s,
        0 <= x,
        0 <= key_w,
        column@.len() <= tallest <= i32::MAX,
        card_height(tallest as int, s as int) <= i32::MAX,
        x + key_w + KEY_DESC_GAP * s <= i32::MAX,
    ensures
        band_views(final(bands)@) == band_views(old(bands)@) + column_bands(
            block_views(column@),
            column@.len() as int,
            x as int,
            key_w as int,
            s as int,
        ),
{
    let ghost before = band_views(bands@);
    let ghost blocks = block_views(column@);
    let mut k: usize = 0;
    assert(before =~= before + column_bands(blocks, 0, x as int, key_w as int, s as int));
    while k < column.len()
        invariant
            1 <= s,
            0 <= x,
            0 <= key_w,
            k <= column@.len() <= tallest <= i32::MAX,
            card_height(tallest as int, s as int) <= i32::MAX,
            x + key_w + KEY_DESC_GAP * s <= i32::MAX,
            blocks == block_views(column@),
            band_views(bands@) == before + column_bands(
                blocks,
                k as int,
                x as int,
                key_w as int,
                s as int,
            ),
        decreases column.len() - k,
    {
        proof {
            lemma_rows_fit(k as int, tallest as int, s as int);
            assert(k * (21 * s) == k * (ROW_H * s));
            assert(0 <= k * (21 * s) <= i32::MAX) by (nonlinear_arith)
                requires
                    0 <= k,
                    1 <= s,
                    0 <= block_y(k as int, s as int) <= i32::MAX,
            ;
        }
        let y: i32 = (26 * s as i64 + 31 * s as i64 + (k as i64) * (21 * s as i64)) as i32;
        push_block(bands, &column[k], x, y, key_w, s);
        assert(blocks[k as int] == column@[k as int]@);
        assert(band_views(bands@) =~= before + column_bands(
            blocks,
            k + 1,
            x as int,
            key_w as int,
            s as int,
        ));
        k = k + 1;
    }
}

/// Lays the rows out on a card for a given space: its size, and every line of
/// text with its place. `None` if the card's coordinates would not fit `i32`.
pub fn render_pixels(
    rows: &[Row],
    measures: &Measures,
    avail_w: i32,
    avail_h: i32,
    s: i32,
) -> (plan: Option<CardPlan>)
    requires
        measures.valid(rows@.len() as int),
    ensures
        ({
            let scale = max_of(s as int, 1);
            let views = row_views(rows@);
            let columns = columns_of(views, lines_fitting(avail_h as int, scale));
            let key_w = widest(measures.keys@);
            let desc_w = desc_width(views, measures.descs@, measures.headers@, scale);
            match plan {
                Some(p) => {
                    &&& places_fit(columns, key_w, desc_w, measures.title as int, scale)
                    &&& p.radius == RADIUS * scale
                    &&& p.size.key_w == key_w
                    &&& p.size.desc_w == desc_w
                    &&& p.size.w == card_width(
                        key_w,
                        desc_w,
                        columns.len() as int,
                        measures.title as int,
                        avail_w as int,
                        scale,
                    )
                    &&& p.size.h == card_height(tallest_column(columns), scale)
                    &&& band_views(p.bands@) == seq![title_band(scale)] + body_bands(
                        columns,
                        columns.len() as int,
                        key_w,
                        desc_w,
                        scale,
                    )
                },
                None => !places_fit(columns, key_w, desc_w, measures.title as int, scale),
            }
        }),
{
    let s: i32 = if s < 1 {
        1
    } else {
        s
    };
    let ghost views = row_views(rows@);
    let lines = lines_per_column(avail_h, s);
    let columns = layout_columns(rows, lines);
    let ghost text = column_views(columns@);
    let key_w: i32 = widest_of(measures.keys.as_slice());
    let descs: i32 = widest_of(measures.descs.as_slice());
    let heads: i32 = widest_header_of(rows, measures.headers.as_slice());
    let raw: i32 = if descs > heads {
        descs
    } else {
        heads
    };
    let limit: i64 = 360 * s as i64;
    let desc_w: i32 = if (raw as i64) < limit {
        raw
    } else {
        limit as i32
    };
    let tallest = longest_column(&columns);
    let n = columns.len();
    assert(text.len() == n);
    let step: i128 = key_w as i128 + 22 * s as i128 + desc_w as i128 + 44 * s as i128;
    proof {
        assert(66 * n <= n * step <= 0xffff_ffff_ffff_ffff * 0x100_0000_0000) by (nonlinear_arith)
            requires
                0 <= n <= 0xffff_ffff_ffff_ffff,
                66 <= step <= 0x100_0000_0000,
        ;
        assert(tallest <= tallest * (21 * s) <= 0xffff_ffff_ffff_ffff * 0x100_0000_0000)
            by (nonlinear_arith)
            requires
                0 <= tallest <= 0xffff_ffff_ffff_ffff,
                1 <= s <= 0x7fff_ffff,
        ;
    }
    let body: i128 = (n as i128) * step - 44 * s as i128;
    assert(body == n * (key_w + KEY_DESC_GAP * s + desc_w) + (n - 1) * (COL_GAP * s))
        by (nonlinear_arith)
        requires
            body == n * step - 44 * s,
            step == key_w + 22 * s + desc_w + 44 * s,
    ;
    let inner: i128 = if body > measures.title as i128 {
        body
    } else {
        measures.title as i128
    };
    let want: i128 = 52 * s as i128 + inner;
    let h: i128 = 83 * s as i128 + (tallest as i128) * (21 * s as i128);
    assert(want == natural_width(
        key_w as int,
        desc_w as int,
        n as int,
        measures.title as int,
        s as int,
    ));
    assert(h == card_height(tallest as int, s as int));
    if want > i32::MAX as i128 || h > i32::MAX as i128 {
        return None;
    }
    let bound: i128 = if avail_w > 1 {
        avail_w as i128
    } else {
        1
    };
    let w: i128 = if want < bound {
        want
    } else {
        bound
    };
    let mut bands: Vec<Band> = Vec::new();
    bands.push(
        Band {
            style: BandStyle::Title,
            text: String::from_str("driftwm — keyboard shortcuts"),
            x: 26 * s,
            y: 26 * s,
            h: 17 * s,
        },
    );
    let ghost head = seq![title_band(s as int)];
    assert(band_views(bands@) =~= head + body_bands(
        text,
        0,
        key_w as int,
        desc_w as int,
        s as int,
    ));
    let mut c: usize = 0;
    while c < columns.len()
        invariant
            c <= columns@.len() == n,
            n <= i32::MAX,
            tallest <= i32::MAX,
            1 <= s,
            0 <= key_w,
            0 <= desc_w,
            text == column_views(columns@),
            tallest == tallest_column(text),
            places_fit(text, key_w as int, desc_w as int, measures.title as int, s as int),
            step == column_step(key_w as int, desc_w as int, s as int),
            band_views(bands@) == head + body_bands(
                text,
                c as int,
                key_w as int,
                desc_w as int,
                s as int,
            ),
        decreases columns.len() - c,
    {
        proof {
            lemma_tallest(text, c as int);
            lemma_columns_fit(
                c as int,
                n as int,
                key_w as int,
                desc_w as int,
                measures.title as int,
                s as int,
            );
            assert(text[c as int] == block_views(columns@[c as int]@));
            assert(0 <= c * step <= i32::MAX);
        }
        let x: i32 = (26 * s as i128 + (c as i128) * step) as i32;
        push_column(&mut bands, &columns[c], x, key_w, s, tallest);
        assert(band_views(bands@) =~= head + body_bands(
            text,
            c + 1,
            key_w as int,
            desc_w as int,
            s as int,
        ));
        c = c + 1;
    }
    Some(
        CardPlan {
            size: CardSize { w: w as i32, h: h as i32, key_w, desc_w },
            radius: 18 * s,
            bands,
        },
    )
}

/// The part of a description's text that names a path is dimmed: the line is
/// drawn in the path colour when it holds the separator.
pub fn is_path_line(fitted: &str) -> (r: bool)
    ensures
        r == fitted@.contains('·'),
{
    let chars = chars_of(fitted);
    let mut i: usize = 0;
    while i < chars.len()
        invariant
            i <= chars@.len(),
            chars@ == fitted@,
            forall|k: int| 0 <= k < i ==> chars@[k] != '·',
        decreases chars.len() - i,
    {
        if chars[i] == '·' {
            assert(fitted@[i as int] == '·');
            return true;
        }
        i = i + 1;
    }
    false
}

/// The bytes of the rows `[y0, y0 + band_h)` of a picture `w` wide, four bytes
/// a pixel; `None` if they are not all there, or none.
pub fn band_range(len: usize, w: u32, y0: u32, band_h: u32) -> (range: Option<(usize, usize)>)
    ensures
        match range {
            Some((start, end)) => {
                &&& start == y0 * w * 4
                &&& end == (y0 + band_h) * w * 4
                &&& start < end <= len
            },
            None => (y0 + band_h) * w * 4 > len || y0 * w * 4 >= (y0 + band_h) * w * 4,
        },
{
    proof {
        assert(0 <= y0 * w <= 0x1_0000_0000 * 0x1_0000_0000) by (nonlinear_arith)
            requires
                0 <= y0 <= 0x1_0000_0000,
                0 <= w <= 0x1_0000_0000,
        ;
        assert(0 <= (y0 + band_h) * w <= 0x2_0000_0000 * 0x1_0000_0000) by (nonlinear_arith)
            requires
                0 <= y0 + band_h <= 0x2_0000_0000,
                0 <= w <= 0x1_0000_0000,
        ;
    }
    let start: u128 = y0 as u128 * w as u128 * 4;
    let end: u128 = (y0 as u128 + band_h as u128) * w as u128 * 4;
    if end > len as u128 || start >= end {
        None
    } else {
        Some((start as usize, end as usize))
    }
}

/// A colour with its bytes in memory order.
#[derive(Clone, Copy, Debug, PartialEq, Eq, Structural)]
pub struct Rgba {
    pub r: u8,
    pub g: u8,
    pub b: u8,
    pub a: u8,
}

/// Radius that the corners of a `w`×`h` card get.
pub open spec fn corner_radius(w: int, h: int, radius: int) -> int {
    if radius < 0 {
        0
    } else {
        min_of(radius, min_of(w, h) / 2)
    }
}

/// Radius that the corners of a `w`×`h` card get: at most half its shorter side.
pub fn corner_radius_of(w: u32, h: u32, radius: i32) -> (r: u32)
    ensures
        r == corner_radius(w as int, h as int, radius as int),
        2 * r <= w,
        2 * r <= h,
{
    let half: u32 = if w < h {
        w / 2
    } else {
        h / 2
    };
    if radius < 0 {
        0
    } else if (radius as u32) < half {
        radius as u32
    } else {
        half
    }
}

/// Distance from the nearer of two edges, if that is less than `r`.
pub open spec fn corner_offset(x: int, w: int, r: int) -> Option<int> {
    if x < r {
        Some(x)
    } else if x >= w - r {
        Some(w - 1 - x)
    } else {
        None
    }
}

/// Alpha of a pixel of the card: that of the colour, or in a corner what the
/// corner's table says for the pixel's distances from the two edges; `None`
/// outside the card.
pub open spec fn card_alpha(
    x: int,
    y: int,
    w: int,
    h: int,
    r: int,
    alpha: u8,
    corner: Seq<Option<u8>>,
) -> Option<u8> {
    match (corner_offset(x, w, r), corner_offset(y, h, r)) {
        (Some(dx), Some(dy)) => corner[dy * r + dx],
        _ => Some(alpha),
    }
}

/// Byte `c` of a pixel that is painted with a colour and an alpha.
pub open spec fn painted_byte(color: Rgba, alpha: Option<u8>, before: u8, c: int) -> u8 {
    match alpha {
        None => before,
        Some(a) => if c == 0 {
            color.r
        } else if c == 1 {
            color.g
        } else if c == 2 {
            color.b
        } else {
            a
        },
    }
}

fn offset_of(x: u32, w: u32, r: u32) -> (d: Option<u32>)
    requires
        x < w,
        2 * r <= w,
    ensures
        match d {
            Some(d) => corner_offset(x as int, w as int, r as int) == Some(d as int) && d < r,
            None => corner_offset(x as int, w as int, r as int) is None,
        },
{
    if x < r {
        Some(x)
    } else if x >= w - r {
        Some(w - 1 - x)
    } else {
        None
    }
}

fn alpha_of(x: u32, y: u32, w: u32, h: u32, r: u32, alpha: u8, corner: &[Option<u8>]) -> (a: Option<
    u8,
>)
    requires
        x < w,
        y < h,
        2 * r <= w,
        2 * r <= h,
        corner@.len() == r * r,
    ensures
        a == card_alpha(x as int, y as int, w as int, h as int, r as int, alpha, corner@),
{
    let dx = offset_of(x, w, r);
    let dy = offset_of(y, h, r);
    let cells = corner.len();
    match dx {
        Some(dx) => match dy {
            Some(dy) => {
                assert(0 <= dy * r + dx < r * r) by (nonlinear_arith)
                    requires
                        0 <= dx < r,
                        0 <= dy < r,
                ;
                assert(0 <= dy * r <= dy * r + dx) by (nonlinear_arith)
                    requires
                        0 <= dx,
                        0 <= dy,
                        0 <= r,
                ;
                assert(dy * r + dx < cells);
                let at: usize = dy as usize * r as usize + dx as usize;
                corner[at]
            },
            None => Some(alpha),
        },
        None => Some(alpha),
    }
}

/// Fills a `w`×`h` picture with a colour and rounds its four corners. `corner`
/// holds the alpha of the upper left corner's pixels, row by row, with nothing
/// for those outside the arc; the other corners mirror it.
pub fn fill_rounded_rect(
    pixels: &mut Vec<u8>,
    w: u32,
    h: u32,
    radius: i32,
    color: Rgba,
    corner: &[Option<u8>],
)
    requires
        w * h * 4 <= old(pixels)@.len(),
        corner@.len() == corner_radius(w as int, h as int, radius as int) * corner_radius(
            w as int,
            h as int,
            radius as int,
        ),
    ensures
        final(pixels)@.len() == old(pixels)@.len(),
        forall|p: int, c: int|
            #![trigger final(pixels)@[4 * p + c]]
            0 <= p < w * h && 0 <= c < 4 ==> final(pixels)@[4 * p + c] == painted_byte(
                color,
                card_alpha(
                    p % (w as int),
                    p / (w as int),
                    w as int,
                    h as int,
                    corner_radius(w as int, h as int, radius as int),
                    color.a,
                    corner@,
                ),
                old(pixels)@[4 * p + c],
                c,
            ),
        forall|i: int|
            w * h * 4 <= i < old(pixels)@.len() ==> final(pixels)@[i] == old(pixels)@[i],
{
    let r = corner_radius_of(w, h, radius);
    if w == 0 || h == 0 {
        assert(w * h == 0) by (nonlinear_arith)
            requires
                w == 0 || h == 0,
        ;
        return;
    }
    let ghost before = pixels@;
    let ghost total = w * h;
    let len = pixels.len();
    let mut x: u32 = 0;
    let mut y: u32 = 0;
    let mut p: usize = 0;
    assert(0 < total) by (nonlinear_arith)
        requires
            0 < w,
            0 < h,
            total == w * h,
    ;
    while y < h
        invariant
            0 < w,
            y <= h,
            x < w,
            y < h ==> p < total,
            y == h ==> x == 0 && p == total,
            p <= total,
            total == w * h,
            total * 4 <= pixels@.len() == len,
            p == y * w + x,
            r == corner_radius(w as int, h as int, radius as int),
            2 * r <= w,
            2 * r <= h,
            corner@.len() == r * r,
            before == old(pixels)@,
            pixels@.len() == before.len(),
            forall|q: int, c: int|
                #![trigger pixels@[4 * q + c]]
                0 <= q < p && 0 <= c < 4 ==> pixels@[4 * q + c] == painted_byte(
                    color,
                    card_alpha(
                        q % (w as int),
                        q / (w as int),
                        w as int,
                        h as int,
                        r as int,
                        color.a,
                        corner@,
                    ),
                    before[4 * q + c],
                    c,
                ),
            forall|i: int| 4 * p <= i < before.len() ==> pixels@[i] == before[i],
        decreases total - p,
    {
        proof {
            vstd::arithmetic::div_mod::lemma_fundamental_div_mod_converse(
                p as int,
                w as int,
                y as int,
                x as int,
            );
        }
        let alpha = alpha_of(x, y, w, h, r, color.a, corner);
        let ghost held = pixels@;
        if let Some(a) = alpha {
            let at: usize = 4 * p;
            pixels.set(at, color.r);
            pixels.set(at + 1, color.g);
            pixels.set(at + 2, color.b);
            pixels.set(at + 3, a);
        }
        assert forall|q: int, c: int|
            #![trigger pixels@[4 * q + c]]
            0 <= q < p + 1 && 0 <= c < 4 implies pixels@[4 * q + c] == painted_byte(
            color,
            card_alpha(
                q % (w as int),
                q / (w as int),
                w as int,
                h as int,
                r as int,
                color.a,
                corner@,
            ),
            before[4 * q + c],
            c,
        ) by {
            if q < p {
                assert(held[4 * q + c] == pixels@[4 * q + c]);
            } else {
                assert(q == p);
                assert(held[4 * q + c] == before[4 * q + c]);
            }
        }
        p = p + 1;
        if x + 1 < w {
            x = x + 1;
            assert(y * w + x <= total - 1) by (nonlinear_arith)
                requires
                    y + 1 <= h,
                    x + 1 <= w,
                    total == w * h,
            ;
        } else {
            assert((y + 1) * w == y * w + w) by (nonlinear_arith);
            x = 0;
            y = y + 1;
            assert(y * w <= total - if y < h {
                1int
            } else {
                0int
            }) by (nonlinear_arith)
                requires
                    y <= h,
                    0 < w,
                    total == w * h,
            ;
            assert(y == h ==> y * w == total) by (nonlinear_arith)
                requires
                    total == w * h,
            ;
        }
    }
}

/// The pixels of a `w`×`h` card before any text is drawn on it, four bytes each:
/// a rounded rectangle of the colour on nothing.
pub fn card_pixels(w: u32, h: u32, radius: i32, color: Rgba, corner: &[Option<u8>]) -> (pixels: Vec<
    u8,
>)
    requires
        w * h * 4 <= usize::MAX,
        corner@.len() == corner_radius(w as int, h as int, radius as int) * corner_radius(
            w as int,
            h as int,
            radius as int,
        ),
    ensures
        pixels@.len() == 4 * w * h,
        forall|p: int, c: int|
            #![trigger pixels@[4 * p + c]]
            0 <= p < w * h && 0 <= c < 4 ==> pixels@[4 * p + c] == painted_byte(
                color,
                card_alpha(
                    p % (w as int),
                    p / (w as int),
                    w as int,
                    h as int,
                    corner_radius(w as int, h as int, radius as int),
                    color.a,
                    corner@,
                ),
                0,
                c,
            ),
{
    assert(0 <= w * h) by (nonlinear_arith)
        requires
            w >= 0,
            h >= 0,
    ;
    let len: usize = w as usize * h as usize * 4;
    assert(len == w * h * 4 && len == 4 * w * h) by (nonlinear_arith)
        requires
            len == w * h * 4,
    ;
    let mut pixels: Vec<u8> = vec![0u8; len];
    fill_rounded_rect(&mut pixels, w, h, radius, color, corner);
    pixels
}

/// Lines of a column follow one another without overlap and end above the lower
/// margin of the card.
pub proof fn law_lines_stay_on_the_card(k: int, tallest: int, s: int)
    requires
        0 <= k < tallest,
        1 <= s,
    ensures
        PAD * s + TITLE_H * s <= block_y(k, s),
        block_y(k, s) + ROW_H * s == block_y(k + 1, s),
        block_y(k, s) + ROW_H * s <= card_height(tallest, s) - PAD * s,
{
    assert(k * (ROW_H * s) + ROW_H * s == (k + 1) * (ROW_H * s)) by (nonlinear_arith);
    assert((k + 1) * (ROW_H * s) <= tallest * (ROW_H * s)) by (nonlinear_arith)
        requires
            k + 1 <= tallest,
            1 <= s,
    ;
    assert(0 <= k * (ROW_H * s)) by (nonlinear_arith)
        requires
            0 <= k,
            1 <= s,
    ;
}

/// Columns stand side by side: each ends a gap before the next begins, and the
/// last ends before the right margin of a card that has the room it wants.
pub proof fn law_columns_stay_apart(
    c: int,
    n: int,
    key_w: int,
    desc_w: int,
    title_w: int,
    avail_w: int,
    s: int,
)
    requires
        0 <= c < n,
        1 <= s,
        0 <= key_w,
        0 <= desc_w,
    ensures
        column_x(c, key_w, desc_w, s) + key_w + KEY_DESC_GAP * s + desc_w + COL_GAP * s == column_x(
            c + 1,
            key_w,
            desc_w,
            s,
        ),
        card_width(key_w, desc_w, n, title_w, avail_w, s) < max_of(avail_w, 1) ==> column_x(
            c,
            key_w,
            desc_w,
            s,
        ) + key_w + KEY_DESC_GAP * s + desc_w <= card_width(
            key_w,
            desc_w,
            n,
            title_w,
            avail_w,
            s,
        ) - PAD * s,
{
    let step = column_step(key_w, desc_w, s);
    assert(c * step + step == (c + 1) * step) by (nonlinear_arith);
    assert((c + 1) * step <= n * step) by (nonlinear_arith)
        requires
            c + 1 <= n,
            0 <= step,
    ;
    assert(n * (key_w + KEY_DESC_GAP * s + desc_w) + (n - 1) * (COL_GAP * s) == n * step - COL_GAP
        * s) by (nonlinear_arith)
        requires
            step == key_w + KEY_DESC_GAP * s + desc_w + COL_GAP * s,
    ;
}

/// The widest of some widths is one of them that none exceeds; with none it is 0.
pub proof fn law_widest_exceeds_all(widths: Seq<i32>)
    requires
        forall|i: int| 0 <= i < widths.len() ==> 0 <= #[trigger] widths[i],
    ensures
        forall|i: int| 0 <= i < widths.len() ==> #[trigger] widths[i] <= widest(widths),
        widths.len() == 0 ==> widest(widths) == 0,
        widths.len() > 0 ==> exists|i: int|
            0 <= i < widths.len() && #[trigger] widths[i] == widest(widths),
    decreases widths.len(),
{
    if widths.len() > 0 {
        let init = widths.drop_last();
        assert(forall|i: int| 0 <= i < init.len() ==> #[trigger] widths[i] == init[i]);
        law_widest_exceeds_all(init);
        assert(widths[widths.len() - 1] == widths.last());
        if widest(widths) != widths.last() {
            let i = choose|i: int| 0 <= i < init.len() && #[trigger] init[i] == widest(init);
            assert(widths[i] == widest(widths));
        }
    }
}

/// The widest heading is that of a category that has a row, and no such category
/// has a wider one; categories without rows do not count.
pub proof fn law_widest_heading_is_of_a_shown_category(
    rows: Seq<RowView>,
    headers: Seq<i32>,
    n: int,
)
    requires
        0 <= n <= 6,
        headers.len() == 6,
        forall|i: int| 0 <= i < 6 ==> 0 <= #[trigger] headers[i],
    ensures
        widest_header(rows, headers, n) >= 0,
        forall|i: int|
            0 <= i < n && rows.any(|r: RowView| r.category == category_at(i)) ==> #[trigger] headers[i]
                <= widest_header(rows, headers, n),
        widest_header(rows, headers, n) == 0 || exists|i: int|
            0 <= i < n && #[trigger] headers[i] == widest_header(rows, headers, n) && rows.any(
                |r: RowView| r.category == category_at(i),
            ),
    decreases n,
{
    if n > 0 {
        law_widest_heading_is_of_a_shown_category(rows, headers, n - 1);
        let before = widest_header(rows, headers, n - 1);
        if widest_header(rows, headers, n) == before && before != 0 {
            let i = choose|i: int|
                0 <= i < n - 1 && #[trigger] headers[i] == before && rows.any(
                    |r: RowView| r.category == category_at(i),
                );
            assert(headers[i] == widest_header(rows, headers, n));
        } else {
            assert(headers[n - 1] == headers[n - 1]);
        }
    }
}

/// Descriptions get the room that the widest of them and of the headings takes, but
/// no more than the limit.
pub proof fn law_descriptions_get_their_room(
    rows: Seq<RowView>,
    descs: Seq<i32>,
    headers: Seq<i32>,
    s: int,
    i: int,
)
    requires
        s >= 1,
        forall|k: int| 0 <= k < descs.len() ==> 0 <= #[trigger] descs[k],
    ensures
        desc_width(rows, descs, headers, s) <= DESC_MAX * s,
        0 <= i < descs.len() && descs[i] <= DESC_MAX * s ==> descs[i] <= desc_width(
            rows,
            descs,
            headers,
            s,
        ),
        widest_header(rows, headers, 6) <= DESC_MAX * s ==> widest_header(rows, headers, 6)
            <= desc_width(rows, descs, headers, s),
        desc_width(rows, descs, headers, s) < DESC_MAX * s ==> desc_width(rows, descs, headers, s)
            == widest(descs) || desc_width(rows, descs, headers, s) == widest_header(
            rows,
            headers,
            6,
        ),
{
    law_widest_exceeds_all(descs);
    if 0 <= i < descs.len() {
        assert(descs[i] <= widest(descs));
    }
}

/// A column has as many lines as the card has room for: one more would make it too
/// tall, and as many are not, unless there is no room for one.
pub proof fn law_columns_use_the_height(avail_h: int, s: int)
    requires
        s >= 1,
    ensures
        lines_fitting(avail_h, s) >= 1,
        card_height(lines_fitting(avail_h, s) + 1, s) > avail_h,
        card_height(1, s) <= avail_h ==> card_height(lines_fitting(avail_h, s), s) <= avail_h,
{
    let row = ROW_H * s;
    let room = max_of(avail_h - 2 * (PAD * s) - (TITLE_H + TITLE_GAP) * s, row);
    let n = room / row;
    assert(row > 0);
    vstd::arithmetic::div_mod::lemma_fundamental_div_mod(room, row);
    assert(n >= 1 && n * row <= room < (n + 1) * row) by (nonlinear_arith)
        requires
            room == row * n + room % row,
            0 <= room % row < row,
            room >= row,
            row > 0,
    ;
    assert(1 * row == row) by (nonlinear_arith);
}

/// A card is as wide as it wants to be where there is room, else as wide as the
/// room; it wants room for all of its columns and for its title.
pub proof fn law_card_takes_the_width_it_wants(
    key_w: int,
    desc_w: int,
    n: int,
    title_w: int,
    avail_w: int,
    s: int,
)
    requires
        s >= 1,
        n >= 1,
    ensures
        ({
            let wanted = natural_width(key_w, desc_w, n, title_w, s);
            let width = card_width(key_w, desc_w, n, title_w, avail_w, s);
            &&& wanted >= title_w + 2 * (PAD * s)
            &&& wanted >= column_x(n - 1, key_w, desc_w, s) + key_w + KEY_DESC_GAP * s + desc_w
                + PAD * s
            &&& wanted == title_w + 2 * (PAD * s) || wanted == column_x(n - 1, key_w, desc_w, s)
                + key_w + KEY_DESC_GAP * s + desc_w + PAD * s
            &&& wanted <= avail_w ==> width == wanted
            &&& avail_w >= 1 && wanted > avail_w ==> width == avail_w
        }),
{
    let a = key_w + KEY_DESC_GAP * s + desc_w;
    let g = COL_GAP * s;
    assert(n * a + (n - 1) * g == (n - 1) * (a + g) + a) by (nonlinear_arith);
}

/// The longest column is one of them that none exceeds.
pub proof fn law_tallest_column_exceeds_all(columns: Seq<Seq<BlockView>>)
    ensures
        forall|c: int|
            0 <= c < columns.len() ==> (#[trigger] columns[c]).len() <= tallest_column(columns),
        columns.len() > 0 ==> exists|c: int|
            0 <= c < columns.len() && (#[trigger] columns[c]).len() == tallest_column(columns),
        columns.len() == 0 ==> tallest_column(columns) == 0,
    decreases columns.len(),
{
    if columns.len() > 0 {
        let init = columns.drop_last();
        assert(forall|c: int| 0 <= c < init.len() ==> #[trigger] columns[c] == init[c]);
        law_tallest_column_exceeds_all(init);
        assert(columns[columns.len() - 1] == columns.last());
        if tallest_column(columns) != columns.last().len() {
            let c = choose|c: int|
                0 <= c < init.len() && (#[trigger] init[c]).len() == tallest_column(init);
            assert(columns[c].len() == tallest_column(columns));
        }
    }
}

/// Every line of every column is on the card, at the left edge of its column and
/// below the lines before it: a heading, or a row's keys with its description a
/// gap right of the widest keys.
pub proof fn law_every_line_is_on_the_card(
    columns: Seq<Seq<BlockView>>,
    n: int,
    key_w: int,
    desc_w: int,
    s: int,
    c: int,
    k: int,
)
    requires
        0 <= c < n <= columns.len(),
        0 <= k < columns[c].len(),
    ensures
        ({
            let bands = body_bands(columns, n, key_w, desc_w, s);
            let x = PAD * s + c * (key_w + KEY_DESC_GAP * s + desc_w + COL_GAP * s);
            let y = PAD * s + TITLE_H * s + TITLE_GAP * s + k * (ROW_H * s);
            match columns[c][k] {
                BlockView::Header(text) => bands.contains(
                    BandView { style: BandStyle::Header, text, x, y, h: ROW_H * s },
                ),
                BlockView::Row { keys, desc } => bands.contains(
                    BandView { style: BandStyle::Keys, text: keys, x, y, h: ROW_H * s },
                ) && bands.contains(
                    BandView {
                        style: BandStyle::Desc,
                        text: desc,
                        x: x + key_w + KEY_DESC_GAP * s,
                        y,
                        h: ROW_H * s,
                    },
                ),
            }
        }),
    decreases n,
{
    let x = column_x(c, key_w, desc_w, s);
    let y = block_y(k, s);
    let own = block_bands(columns[c][k], x, y, key_w, s);
    let column = columns[c];
    assert((TITLE_H + TITLE_GAP) * s == TITLE_H * s + TITLE_GAP * s) by (nonlinear_arith);
    assert forall|i: int| 0 <= i < own.len() implies body_bands(
        columns,
        n,
        key_w,
        desc_w,
        s,
    ).contains(#[trigger] own[i]) by {
        lemma_block_in_column(column, column.len() as int, x, key_w, s, k, i);
        lemma_column_in_body(columns, n, key_w, desc_w, s, c, own[i]);
    }
    let bands = body_bands(columns, n, key_w, desc_w, s);
    match columns[c][k] {
        BlockView::Header(text) => {
            let band = BandView { style: BandStyle::Header, text, x, y, h: ROW_H * s };
            assert(own[0] == band);
            assert(bands.contains(own[0]));
        },
        BlockView::Row { keys, desc } => {
            let left = BandView { style: BandStyle::Keys, text: keys, x, y, h: ROW_H * s };
            assert(own[0] == left);
            assert(own[1].style is Desc);
            assert(bands.contains(own[0]));
            assert(bands.contains(own[1]));
        },
    }
}

proof fn lemma_block_in_column(
    column: Seq<BlockView>,
    n: int,
    x: int,
    key_w: int,
    s: int,
    k: int,
    i: int,
)
    requires
        0 <= k < n <= column.len(),
        0 <= i < block_bands(column[k], x, block_y(k, s), key_w, s).len(),
    ensures
        column_bands(column, n, x, key_w, s).contains(
            block_bands(column[k], x, block_y(k, s), key_w, s)[i],
        ),
    decreases n,
{
    let all = column_bands(column, n, x, key_w, s);
    let init = column_bands(column, n - 1, x, key_w, s);
    let band = block_bands(column[k], x, block_y(k, s), key_w, s)[i];
    if k < n - 1 {
        lemma_block_in_column(column, n - 1, x, key_w, s, k, i);
        let j = choose|j: int| 0 <= j < init.len() && init[j] == band;
        assert(all[j] == band);
    } else {
        assert(all[init.len() + i] == band);
    }
}

proof fn lemma_column_in_body(
    columns: Seq<Seq<BlockView>>,
    n: int,
    key_w: int,
    desc_w: int,
    s: int,
    c: int,
    band: BandView,
)
    requires
        0 <= c < n <= columns.len(),
        column_bands(
            columns[c],
            columns[c].len() as int,
            column_x(c, key_w, desc_w, s),
            key_w,
            s,
        ).contains(band),
    ensures
        body_bands(columns, n, key_w, desc_w, s).contains(band),
    decreases n,
{
    let all = body_bands(columns, n, key_w, desc_w, s);
    let init = body_bands(columns, n - 1, key_w, desc_w, s);
    if c < n - 1 {
        lemma_column_in_body(columns, n - 1, key_w, desc_w, s, c, band);
        let j = choose|j: int| 0 <= j < init.len() && init[j] == band;
        assert(all[j] == band);
    } else {
        let own = column_bands(
            columns[c],
            columns[c].len() as int,
            column_x(c, key_w, desc_w, s),
            key_w,
            s,
        );
        let j = choose|j: int| 0 <= j < own.len() && own[j] == band;
        assert(all[init.len() + j] == band);
    }
}

/// Corners are as round as asked for where the card is large enough, else as round
/// as half its shorter side; never less than square.
pub proof fn law_corners_fit_the_card(w: int, h: int, radius: int)
    requires
        w >= 0,
        h >= 0,
    ensures
        0 <= corner_radius(w, h, radius),
        2 * corner_radius(w, h, radius) <= w,
        2 * corner_radius(w, h, radius) <= h,
        radius >= 0 && 2 * radius <= w && 2 * radius <= h ==> corner_radius(w, h, radius)
            == radius,
        radius >= 0 && (2 * radius > w || 2 * radius > h) ==> 2 * corner_radius(w, h, radius) + 1
            >= w || 2 * corner_radius(w, h, radius) + 1 >= h,
        radius < 0 ==> corner_radius(w, h, radius) == 0,
{
}

/// The four corners mirror each other; off them a pixel has the colour's alpha, and
/// in the upper left one what the table says for its place there.
pub proof fn law_corners_mirror_each_other(
    x: int,
    y: int,
    w: int,
    h: int,
    r: int,
    alpha: u8,
    corner: Seq<Option<u8>>,
)
    requires
        0 <= x < w,
        0 <= y < h,
        0 <= r,
        2 * r <= w,
        2 * r <= h,
    ensures
        card_alpha(w - 1 - x, y, w, h, r, alpha, corner) == card_alpha(
            x,
            y,
            w,
            h,
            r,
            alpha,
            corner,
        ),
        card_alpha(x, h - 1 - y, w, h, r, alpha, corner) == card_alpha(
            x,
            y,
            w,
            h,
            r,
            alpha,
            corner,
        ),
        x < r && y < r ==> card_alpha(x, y, w, h, r, alpha, corner) == corner[y * r + x],
        r <= x < w - r || r <= y < h - r ==> card_alpha(x, y, w, h, r, alpha, corner) == Some(
            alpha,
        ),
{
}

/// A pixel outside the card stays as it was; one on it has the colour's channels in
/// their order and its own alpha.
pub proof fn law_painted_pixels(color: Rgba, a: u8, before: u8, c: int)
    ensures
        painted_byte(color, None, before, c) == before,
        painted_byte(color, Some(a), before, 0) == color.r,
        painted_byte(color, Some(a), before, 1) == color.g,
        painted_byte(color, Some(a), before, 2) == color.b,
        painted_byte(color, Some(a), before, 3) == a,
{
}

/// The title stands within the margin, above every line of every column.
pub proof fn law_title_stands_on_top(k: int, s: int)
    requires
        s >= 1,
        0 <= k,
    ensures
        title_band(s).style is Title,
        title_band(s).x == PAD * s,
        title_band(s).y == PAD * s,
        title_band(s).y + title_band(s).h + TITLE_GAP * s <= block_y(k, s),
        title_band(s).x == column_x(0, 0, 0, s),
{
    assert((TITLE_H + TITLE_GAP) * s == TITLE_H * s + TITLE_GAP * s) by (nonlinear_arith);
    assert(0 <= k * (ROW_H * s)) by (nonlinear_arith)
        requires
            0 <= k,
            1 <= s,
    ;
    assert(0 * column_step(0, 0, s) == 0) by (nonlinear_arith);
}

/// A card's coordinates fit exactly if its height with the longest column and the
/// width it wants do.
pub proof fn law_card_fits_by_its_extent(
    columns: Seq<Seq<BlockView>>,
    key_w: int,
    desc_w: int,
    title_w: int,
    s: int,
    c: int,
)
    requires
        places_fit(columns, key_w, desc_w, title_w, s),
        s >= 1,
        0 <= c < columns.len(),
    ensures
        card_height(columns[c].len() as int, s) <= i32::MAX,
        natural_width(key_w, desc_w, columns.len() as int, title_w, s) <= i32::MAX,
{
    law_tallest_column_exceeds_all(columns);
    let a = columns[c].len() as int;
    let b = tallest_column(columns);
    assert(a <= b);
    assert(a * (ROW_H * s) <= b * (ROW_H * s)) by (nonlinear_arith)
        requires
            a <= b,
            1 <= s,
    ;
}

} // verus!
