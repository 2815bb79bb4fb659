//! The rows of the overlay, in sections by category, packed into columns.

use crate::help::describe::{
    Action, KeyCombo, action_text, combo_text, describe_action, format_combo, key_label,
};
use crate::text::chars_of;
use vstd::prelude::*;
use vstd::string::StringExecFns;

verus! {

/// A section of the overlay. Sections appear in this order.
#[derive(Clone, Copy, Debug, PartialEq, Eq, Structural)]
pub enum Category {
    Apps,
    Navigation,
    View,
    Windows,
    Zoom,
    System,
}

impl Category {
    /// Place in the order of sections.
    pub open spec fn rank(self) -> int {
        match self {
            Category::Apps => 0,
            Category::Navigation => 1,
            Category::View => 2,
            Category::Windows => 3,
            Category::Zoom => 4,
            Category::System => 5,
        }
    }

    pub open spec fn title_text(self) -> Seq<char> {
        match self {
            Category::Apps => "Applications"@,
            Category::Navigation => "Navigation"@,
            Category::View => "View"@,
            Category::Windows => "Windows"@,
            Category::Zoom => "Zoom"@,
            Category::System => "System"@,
        }
    }

    pub(crate) fn index(&self) -> (i: u8)
        ensures
            i == self.rank(),
    {
        match self {
            Category::Apps => 0,
            Category::Navigation => 1,
            Category::View => 2,
            Category::Windows => 3,
            Category::Zoom => 4,
            Category::System => 5,
        }
    }

    /// Heading of the section.
    pub fn title(self) -> (title: &'static str)
        ensures
            title@ == self.title_text(),
    {
        match self {
            Category::Apps => "Applications",
            Category::Navigation => "Navigation",
            Category::View => "View",
            Category::Windows => "Windows",
            Category::Zoom => "Zoom",
            Category::System => "System",
        }
    }
}

/// The category at a place in the order.
pub open spec fn category_at(i: int) -> Category {
    if i == 0 {
        Category::Apps
    } else if i == 1 {
        Category::Navigation
    } else if i == 2 {
        Category::View
    } else if i == 3 {
        Category::Windows
    } else if i == 4 {
        Category::Zoom
    } else {
        Category::System
    }
}

pub(crate) fn nth_category(i: u8) -> (c: Category)
    ensures
        c == category_at(i as int),
{
    if i == 0 {
        Category::Apps
    } else if i == 1 {
        Category::Navigation
    } else if i == 2 {
        Category::View
    } else if i == 3 {
        Category::Windows
    } else if i == 4 {
        Category::Zoom
    } else {
        Category::System
    }
}

/// A binding as it is shown.
pub struct Row {
    pub category: Category,
    pub keys: String,
    pub desc: String,
}

/// A row by its text.
pub struct RowView {
    pub category: Category,
    pub keys: Seq<char>,
    pub desc: Seq<char>,
}

impl View for Row {
    type V = RowView;

    open spec fn view(&self) -> RowView {
        RowView { category: self.category, keys: self.keys@, desc: self.desc@ }
    }
}

/// One line in a column.
pub enum Block {
    Header(String),
    Row { keys: String, desc: String },
}

/// A line by its text.
pub enum BlockView {
    Header(Seq<char>),
    Row { keys: Seq<char>, desc: Seq<char> },
}

impl View for Block {
    type V = BlockView;

    open spec fn view(&self) -> BlockView {
        match self {
            Block::Header(t) => BlockView::Header(t@),
            Block::Row { keys, desc } => BlockView::Row { keys: keys@, desc: desc@ },
        }
    }
}

/// Dictionary order of two texts, from character `i` on.
pub open spec fn text_leq(a: Seq<char>, b: Seq<char>, i: int) -> bool
    decreases a.len() - i,
{
    if i >= a.len() {
        true
    } else if i >= b.len() {
        false
    } else if a[i] != b[i] {
        a[i] < b[i]
    } else {
        text_leq(a, b, i + 1)
    }
}

/// Rows go by category, then description, then keys.
pub open spec fn row_leq(a: RowView, b: RowView) -> bool {
    if a.category != b.category {
        a.category.rank() < b.category.rank()
    } else if a.desc != b.desc {
        text_leq(a.desc, b.desc, 0)
    } else {
        text_leq(a.keys, b.keys, 0)
    }
}

/// `rows` with `r` behind the last row that does not come after it.
pub open spec fn row_inserted(rows: Seq<RowView>, r: RowView) -> Seq<RowView>
    decreases rows.len(),
{
    if rows.len() == 0 || row_leq(rows.last(), r) {
        rows.push(r)
    } else {
        row_inserted(rows.drop_last(), r).push(rows.last())
    }
}

/// The rows in order.
pub open spec fn rows_sorted(rows: Seq<RowView>) -> Seq<RowView>
    decreases rows.len(),
{
    if rows.len() == 0 {
        rows
    } else {
        row_inserted(rows_sorted(rows.drop_last()), rows.last())
    }
}

pub open spec fn row_views(rows: Seq<Row>) -> Seq<RowView> {
    rows.map_values(|r: Row| r@)
}

/// Whether `a` comes before or with `b` in dictionary order, by code point.
fn is_text_leq(a: &str, b: &str) -> (r: bool)
    ensures
        r == text_leq(a@, b@, 0),
{
    let x = chars_of(a);
    let y = chars_of(b);
    let mut i: usize = 0;
    while i < x.len()
        invariant
            i <= x.len(),
            x@ == a@,
            y@ == b@,
            text_leq(a@, b@, 0) == text_leq(a@, b@, i as int),
        decreases x.len() - i,
    {
        if i >= y.len() {
            return false;
        }
        if x[i] != y[i] {
            return x[i] < y[i];
        }
        i = i + 1;
    }
    true
}

fn is_row_leq(a: &Row, b: &Row) -> (r: bool)
    ensures
        r == row_leq(a@, b@),
{
    if a.category != b.category {
        return a.category.index() < b.category.index();
    }
    if !crate::text::same_text(a.desc.as_str(), b.desc.as_str()) {
        return is_text_leq(a.desc.as_str(), b.desc.as_str());
    }
    is_text_leq(a.keys.as_str(), b.keys.as_str())
}

proof fn lemma_inserted_at(rows: Seq<RowView>, r: RowView, i: int)
    requires
        0 <= i <= rows.len(),
        forall|k: int| i <= k < rows.len() ==> !row_leq(#[trigger] rows[k], r),
        i > 0 ==> row_leq(rows[i - 1], r),
    ensures
        row_inserted(rows, r) =~= rows.insert(i, r),
    decreases rows.len(),
{
    if i < rows.len() {
        assert(!row_leq(rows[rows.len() - 1], r));
        lemma_inserted_at(rows.drop_last(), r, i);
    }
}

fn insert_row(rows: &mut Vec<Row>, r: Row)
    ensures
        row_views(final(rows)@) == row_inserted(row_views(old(rows)@), r@),
{
    let ghost before = row_views(rows@);
    let mut i: usize = rows.len();
    while i > 0 && !is_row_leq(&rows[i - 1], &r)
        invariant
            i <= rows@.len(),
            before == row_views(rows@),
            rows@ == old(rows)@,
            forall|k: int| i <= k < before.len() ==> !row_leq(#[trigger] before[k], r@),
        decreases i,
    {
        assert(before[i - 1] == rows@[i - 1]@);
        i = i - 1;
    }
    proof {
        if i > 0 {
            assert(before[i - 1] == rows@[i - 1]@);
        }
        lemma_inserted_at(before, r@, i as int);
    }
    rows.insert(i, r);
    assert(row_views(rows@) =~= before.insert(i as int, r@));
}

/// Sorts the rows by category, description and keys.
pub fn sort_rows(rows: Vec<Row>) -> (sorted: Vec<Row>)
    ensures
        row_views(sorted@) == rows_sorted(row_views(rows@)),
{
    let ghost all = rows@;
    let mut out: Vec<Row> = Vec::new();
    assert(row_views(out@) =~= rows_sorted(row_views(all.subrange(0, 0))));
    for r in it: rows
        invariant
            it.seq() == all,
            row_views(out@) == rows_sorted(row_views(all.subrange(0, it.index() as int))),
    {
        proof {
            let next = row_views(all.subrange(0, it.index() + 1));
            assert(next.drop_last() =~= row_views(all.subrange(0, it.index() as int)));
            assert(next.last() == r@);
        }
        insert_row(&mut out, r);
    }
    assert(all.subrange(0, all.len() as int) =~= all);
    out
}

/// The row of a binding.
pub open spec fn row_of(combo: KeyCombo, action: Action) -> RowView {
    RowView {
        category: action_text(action).0,
        keys: combo_text(combo.modifiers, key_label(combo.key@)),
        desc: action_text(action).1,
    }
}

/// The rows of all bindings, in order.
pub fn collect_rows(bindings: &[(KeyCombo, Action)]) -> (rows: Vec<Row>)
    ensures
        row_views(rows@) == rows_sorted(
            bindings@.map_values(|b: (KeyCombo, Action)| row_of(b.0, b.1)),
        ),
{
    let ghost views = bindings@.map_values(|b: (KeyCombo, Action)| row_of(b.0, b.1));
    let mut rows: Vec<Row> = Vec::new();
    let mut i: usize = 0;
    while i < bindings.len()
        invariant
            i <= bindings.len(),
            views == bindings@.map_values(|b: (KeyCombo, Action)| row_of(b.0, b.1)),
            row_views(rows@) =~= views.subrange(0, i as int),
        decreases bindings.len() - i,
    {
        let ghost before = rows@;
        let (category, desc) = describe_action(&bindings[i].1);
        let keys = format_combo(&bindings[i].0);
        rows.push(Row { category, keys, desc });
        assert(row_views(rows@) =~= row_views(before).push(views[i as int]));
        i = i + 1;
    }
    assert(views.subrange(0, i as int) =~= views);
    sort_rows(rows)
}

/// The rows of a category, in order.
pub open spec fn rows_in(rows: Seq<RowView>, category: Category) -> Seq<RowView> {
    rows_sorted(rows.filter(|r: RowView| r.category == category))
}

/// A category's heading and its rows.
pub open spec fn section_of(rows: Seq<RowView>, category: Category) -> Seq<BlockView> {
    seq![BlockView::Header(category.title_text())] + rows_in(rows, category).map_values(
        |r: RowView| BlockView::Row { keys: r.keys, desc: r.desc },
    )
}

/// The sections of the first `n` categories that have rows.
pub open spec fn sections_of(rows: Seq<RowView>, n: int) -> Seq<Seq<BlockView>>
    decreases n,
{
    if n <= 0 {
        Seq::empty()
    } else {
        let init = sections_of(rows, n - 1);
        if rows_in(rows, category_at(n - 1)).len() > 0 {
            init.push(section_of(rows, category_at(n - 1)))
        } else {
            init
        }
    }
}

/// Lines of some sections together.
pub open spec fn lines(sections: Seq<Seq<BlockView>>) -> Seq<BlockView>
    decreases sections.len(),
{
    if sections.len() == 0 {
        Seq::empty()
    } else {
        lines(sections.drop_last()) + sections.last()
    }
}

/// The sections sorted into columns: a section that does not fit behind those
/// of the current column starts a new one.
pub open spec fn packed(sections: Seq<Seq<BlockView>>, limit: int) -> Seq<Seq<Seq<BlockView>>>
    decreases sections.len(),
{
    if sections.len() == 0 {
        seq![Seq::empty()]
    } else {
        let init = packed(sections.drop_last(), limit);
        let section = sections.last();
        let used = lines(init.last()).len();
        if used > 0 && used + section.len() > limit {
            init.push(seq![section])
        } else {
            init.update(init.len() - 1, init.last().push(section))
        }
    }
}

pub open spec fn block_views(blocks: Seq<Block>) -> Seq<BlockView> {
    blocks.map_values(|b: Block| b@)
}

/// The lines of the columns.
pub open spec fn columns_of(
    rows: Seq<RowView>,
    lines_per_col: int,
) -> Seq<Seq<BlockView>> {
    packed(
        sections_of(rows, 6),
        if lines_per_col < 1 {
            1
        } else {
            lines_per_col
        },
    ).map_values(|column: Seq<Seq<BlockView>>| lines(column))
}

fn build_section(rows: &[Row], category: Category) -> (section: Vec<Block>)
    ensures
        rows_in(row_views(rows@), category).len() == 0 ==> section@.len() == 0,
        rows_in(row_views(rows@), category).len() > 0 ==> block_views(section@) == section_of(
            row_views(rows@),
            category,
        ),
{
    let ghost views = row_views(rows@);
    let ghost pred = |r: RowView| r.category == category;
    let mut sorted: Vec<Row> = Vec::new();
    let mut i: usize = 0;
    assert(views.subrange(0, 0).filter(pred) =~= Seq::empty()) by {
        reveal(Seq::filter);
    }
    assert(row_views(sorted@) =~= rows_sorted(Seq::empty()));
    while i < rows.len()
        invariant
            i <= rows.len(),
            views == row_views(rows@),
            pred == (|r: RowView| r.category == category),
            row_views(sorted@) == rows_sorted(views.subrange(0, i as int).filter(pred)),
        decreases rows.len() - i,
    {
        let ghost next = views.subrange(0, i + 1);
        proof {
            assert(next.drop_last() =~= views.subrange(0, i as int));
            assert(next.last() == rows@[i as int]@);
            reveal(Seq::filter);
        }
        if rows[i].category == category {
            let row = Row {
                category,
                keys: rows[i].keys.clone(),
                desc: rows[i].desc.clone(),
            };
            assert(row@ == rows@[i as int]@);
            proof {
                let kept = next.filter(pred);
                assert(kept.drop_last() =~= views.subrange(0, i as int).filter(pred));
                assert(kept.last() == row@);
            }
            insert_row(&mut sorted, row);
        }
        i = i + 1;
    }
    assert(views.subrange(0, i as int) =~= views);
    assert(row_views(sorted@).len() == sorted@.len());
    let ghost inside = rows_in(views, category);
    let mut section: Vec<Block> = Vec::new();
    if sorted.len() == 0 {
        return section;
    }
    section.push(Block::Header(String::from_str(category.title())));
    let ghost want = section_of(views, category);
    assert(block_views(section@) =~= want.subrange(0, 1));
    let mut k: usize = 0;
    while k < sorted.len()
        invariant
            k <= sorted.len(),
            inside == row_views(sorted@),
            want == seq![BlockView::Header(category.title_text())] + inside.map_values(
                |r: RowView| BlockView::Row { keys: r.keys, desc: r.desc },
            ),
            block_views(section@) =~= want.subrange(0, k + 1),
        decreases sorted.len() - k,
    {
        let ghost before = section@;
        section.push(
            Block::Row { keys: sorted[k].keys.clone(), desc: sorted[k].desc.clone() },
        );
        assert(inside[k as int] == sorted@[k as int]@);
        assert(block_views(section@) =~= block_views(before).push(want[k + 1]));
        k = k + 1;
    }
    assert(want.subrange(0, k + 1) =~= want);
    section
}

pub open spec fn column_views(columns: Seq<Vec<Block>>) -> Seq<Seq<BlockView>> {
    columns.map_values(|c: Vec<Block>| block_views(c@))
}

proof fn lemma_packed_nonempty(sections: Seq<Seq<BlockView>>, limit: int)
    ensures
        packed(sections, limit).len() >= 1,
    decreases sections.len(),
{
    if sections.len() > 0 {
        lemma_packed_nonempty(sections.drop_last(), limit);
    }
}

/// Groups the rows into sections and packs whole sections into columns of at
/// most `lines_per_col` lines. A section is never split; one that is longer than
/// a column gets a longer column.
pub fn layout_columns(rows: &[Row], lines_per_col: usize) -> (columns: Vec<Vec<Block>>)
    ensures
        column_views(columns@) == columns_of(row_views(rows@), lines_per_col as int),
{
    let ghost views = row_views(rows@);
    let limit: usize = if lines_per_col < 1 {
        1
    } else {
        lines_per_col
    };
    let ghost flat = |column: Seq<Seq<BlockView>>| lines(column);
    let mut columns: Vec<Vec<Block>> = Vec::new();
    columns.push(Vec::new());
    proof {
        assert(sections_of(views, 0) =~= Seq::empty());
        assert(lines(Seq::<Seq<BlockView>>::empty()) =~= Seq::<BlockView>::empty());
        assert(packed(sections_of(views, 0), limit as int) == seq![
            Seq::<Seq<BlockView>>::empty(),
        ]);
        assert(block_views(columns@[0]@) =~= Seq::<BlockView>::empty());
        assert(column_views(columns@) =~= packed(sections_of(views, 0), limit as int).map_values(
            flat,
        ));
    }
    let mut c: u8 = 0;
    while c < 6
        invariant
            c <= 6,
            views == row_views(rows@),
            flat == (|column: Seq<Seq<BlockView>>| lines(column)),
            columns@.len() >= 1,
            column_views(columns@) == packed(
                sections_of(views, c as int),
                limit as int,
            ).map_values(flat),
        decreases 6 - c,
    {
        let category = nth_category(c);
        let mut section = build_section(rows, category);
        let ghost sections = sections_of(views, c as int);
        let ghost before = packed(sections, limit as int);
        let ghost text = section_of(views, category);
        proof {
            lemma_packed_nonempty(sections, limit as int);
            assert(column_views(columns@).len() == columns@.len());
        }
        if section.len() > 0 {
            let ghost next = sections.push(text);
            proof {
                assert(sections_of(views, c + 1) == next);
                assert(next.drop_last() =~= sections);
                assert(block_views(section@).len() == section@.len());
            }
            let last: usize = columns.len() - 1;
            let used: usize = columns[last].len();
            let ghost old_columns = columns@;
            proof {
                assert(column_views(columns@)[last as int] == block_views(
                    columns@[last as int]@,
                ));
                assert(before.map_values(flat)[last as int] == lines(before.last()));
                assert(used == lines(before.last()).len());
            }
            if used > 0 && section.len() > limit - min_limit(used, limit) {
                let ghost added = section@;
                columns.push(section);
                proof {
                    let after = packed(next, limit as int);
                    assert(after == before.push(seq![text]));
                    assert(lines(seq![text]) =~= text) by {
                        assert(seq![text].drop_last() =~= Seq::empty());
                        assert(lines(Seq::<Seq<BlockView>>::empty()) =~= Seq::<BlockView>::empty());
                    }
                    assert(block_views(added) == text);
                    assert(column_views(columns@) =~= column_views(old_columns).push(text));
                    assert(after.map_values(flat) =~= before.map_values(flat).push(text));
                }
            } else {
                columns[last].append(&mut section);
                proof {
                    let after = packed(next, limit as int);
                    let grown = before.last().push(text);
                    assert(after == before.update(before.len() - 1, grown));
                    assert(grown.drop_last() =~= before.last());
                    assert(lines(grown) == lines(before.last()) + text);
                    assert(block_views(columns@[last as int]@) =~= block_views(
                        old_columns[last as int]@,
                    ) + text);
                    assert forall|k: int| 0 <= k < columns@.len() implies column_views(
                        columns@,
                    )[k] == after.map_values(flat)[k] by {
                        if k < last {
                            assert(columns@[k] == old_columns[k]);
                            assert(column_views(old_columns)[k] == before.map_values(flat)[k]);
                        }
                    }
                    assert(column_views(columns@) =~= after.map_values(flat));
                }
            }
        } else {
            proof {
                assert(block_views(section@).len() == section@.len());
                assert(rows_in(views, category).len() == 0);
                assert(category == category_at(c as int));
                assert(sections_of(views, c + 1) == sections);
            }
        }
        c = c + 1;
    }
    columns
}

fn min_limit(a: usize, b: usize) -> (m: usize)
    ensures
        m == if a <= b {
            a
        } else {
            b
        },
{
    if a <= b {
        a
    } else {
        b
    }
}

proof fn lemma_text_total(a: Seq<char>, b: Seq<char>, i: int)
    requires
        0 <= i,
    ensures
        text_leq(a, b, i) || text_leq(b, a, i),
    decreases a.len() - i,
{
    if i < a.len() && i < b.len() && a[i] == b[i] {
        lemma_text_total(a, b, i + 1);
    }
}

proof fn lemma_text_transitive(a: Seq<char>, b: Seq<char>, c: Seq<char>, i: int)
    requires
        0 <= i,
        text_leq(a, b, i),
        text_leq(b, c, i),
    ensures
        text_leq(a, c, i),
    decreases a.len() - i,
{
    if i < a.len() && i < b.len() && i < c.len() && a[i] == b[i] && b[i] == c[i] {
        lemma_text_transitive(a, b, c, i + 1);
    }
}

proof fn lemma_text_antisymmetric(a: Seq<char>, b: Seq<char>, i: int)
    requires
        0 <= i,
        i <= a.len(),
        i <= b.len(),
        forall|k: int| 0 <= k < i ==> a[k] == b[k],
        text_leq(a, b, i),
        text_leq(b, a, i),
    ensures
        a == b,
    decreases a.len() - i,
{
    if i < a.len() && i < b.len() {
        lemma_text_antisymmetric(a, b, i + 1);
    } else {
        assert(a =~= b);
    }
}

proof fn lemma_row_total(a: RowView, b: RowView)
    ensures
        row_leq(a, b) || row_leq(b, a),
{
    lemma_text_total(a.desc, b.desc, 0);
    lemma_text_total(a.keys, b.keys, 0);
}

proof fn lemma_row_transitive(a: RowView, b: RowView, c: RowView)
    requires
        row_leq(a, b),
        row_leq(b, c),
    ensures
        row_leq(a, c),
{
    if a.category == b.category && b.category == c.category {
        if a.desc != b.desc && b.desc != c.desc {
            lemma_text_transitive(a.desc, b.desc, c.desc, 0);
            if a.desc == c.desc {
                lemma_text_antisymmetric(a.desc, b.desc, 0);
            }
        } else if a.desc == b.desc && b.desc == c.desc {
            lemma_text_transitive(a.keys, b.keys, c.keys, 0);
        }
    }
}

/// Every row comes before or with all that follow it.
pub open spec fn in_order(rows: Seq<RowView>) -> bool {
    forall|i: int, j: int| 0 <= i < j < rows.len() ==> row_leq(#[trigger] rows[i], #[trigger] rows[j])
}

proof fn lemma_inserted(rows: Seq<RowView>, r: RowView)
    requires
        in_order(rows),
    ensures
        in_order(row_inserted(rows, r)),
        row_inserted(rows, r).to_multiset() =~= rows.to_multiset().insert(r),
        forall|x: RowView| #[trigger]
            row_inserted(rows, r).contains(x) ==> x == r || rows.contains(x),
    decreases rows.len(),
{
    broadcast use vstd::seq_lib::group_to_multiset_ensures;

    let out = row_inserted(rows, r);
    if rows.len() == 0 {
        assert(out =~= rows.push(r));
    } else if row_leq(rows.last(), r) {
        assert forall|i: int, j: int| 0 <= i < j < out.len() implies row_leq(
            #[trigger] out[i],
            #[trigger] out[j],
        ) by {
            if j == rows.len() && i < rows.len() - 1 {
                lemma_row_transitive(rows[i], rows.last(), r);
            }
        }
        assert forall|x: RowView| #[trigger] out.contains(x) implies x == r || rows.contains(
            x,
        ) by {
            let k = choose|k: int| 0 <= k < out.len() && out[k] == x;
            if k < rows.len() {
                assert(rows[k] == x);
            }
        }
    } else {
        let init = rows.drop_last();
        lemma_inserted(init, r);
        let mid = row_inserted(init, r);
        lemma_row_total(rows.last(), r);
        assert forall|i: int, j: int| 0 <= i < j < out.len() implies row_leq(
            #[trigger] out[i],
            #[trigger] out[j],
        ) by {
            if j == mid.len() {
                assert(mid.contains(mid[i]));
                if mid[i] != r {
                    let k = choose|k: int| 0 <= k < init.len() && init[k] == mid[i];
                    assert(rows[k] == mid[i]);
                    assert(row_leq(rows[k], rows[rows.len() - 1]));
                }
            } else {
                assert(row_leq(mid[i], mid[j]));
            }
        }
        assert forall|x: RowView| #[trigger] out.contains(x) implies x == r || rows.contains(
            x,
        ) by {
            let k = choose|k: int| 0 <= k < out.len() && out[k] == x;
            if k < mid.len() {
                assert(mid.contains(x));
                if x != r {
                    let q = choose|q: int| 0 <= q < init.len() && init[q] == x;
                    assert(rows[q] == x);
                }
            } else {
                assert(rows[rows.len() - 1] == x);
            }
        }
        assert(rows =~= init.push(rows.last()));
        assert(out.to_multiset() =~= mid.to_multiset().insert(rows.last()));
        assert(rows.to_multiset() =~= init.to_multiset().insert(rows.last()));
    }
}

/// The sorted rows are the same rows, each before or with all that follow it.
pub proof fn law_sorted_rows_are_the_rows_in_order(rows: Seq<RowView>)
    ensures
        in_order(rows_sorted(rows)),
        rows_sorted(rows).to_multiset() =~= rows.to_multiset(),
    decreases rows.len(),
{
    broadcast use vstd::seq_lib::group_to_multiset_ensures;

    if rows.len() > 0 {
        law_sorted_rows_are_the_rows_in_order(rows.drop_last());
        lemma_inserted(rows_sorted(rows.drop_last()), rows.last());
        assert(rows =~= rows.drop_last().push(rows.last()));
    }
}

proof fn lemma_row_antisymmetric(a: RowView, b: RowView)
    requires
        row_leq(a, b),
        row_leq(b, a),
    ensures
        a == b,
{
    if a.category == b.category {
        if a.desc != b.desc {
            lemma_text_antisymmetric(a.desc, b.desc, 0);
        }
        lemma_text_antisymmetric(a.keys, b.keys, 0);
    }
}

proof fn lemma_last_is_last(a: Seq<RowView>, b: Seq<RowView>)
    requires
        in_order(b),
        a.len() > 0,
        a.to_multiset() == b.to_multiset(),
    ensures
        b.len() > 0,
        row_leq(a.last(), b.last()),
{
    broadcast use vstd::seq_lib::group_to_multiset_ensures;

    let r = a.last();
    assert(a[a.len() - 1] == r);
    assert(a.contains(r));
    assert(a.to_multiset().count(r) > 0);
    assert(b.contains(r));
    let k = choose|k: int| 0 <= k < b.len() && b[k] == r;
    if k == b.len() - 1 {
        lemma_row_total(r, r);
    } else {
        assert(row_leq(b[k], b[b.len() - 1]));
    }
}

proof fn lemma_one_order(a: Seq<RowView>, b: Seq<RowView>)
    requires
        in_order(a),
        in_order(b),
        a.to_multiset() == b.to_multiset(),
    ensures
        a == b,
    decreases a.len(),
{
    broadcast use vstd::seq_lib::group_to_multiset_ensures;

    assert(a.len() == a.to_multiset().len());
    assert(b.len() == b.to_multiset().len());
    if a.len() == 0 {
        assert(a =~= b);
    } else {
        lemma_last_is_last(a, b);
        lemma_last_is_last(b, a);
        lemma_row_antisymmetric(a.last(), b.last());
        let last = a.last();
        let init_a = a.drop_last();
        let init_b = b.drop_last();
        assert(a =~= init_a.push(last));
        assert(b =~= init_b.push(last));
        assert(init_a.to_multiset() =~= init_b.to_multiset()) by {
            assert(a.to_multiset() =~= init_a.to_multiset().insert(last));
            assert(b.to_multiset() =~= init_b.to_multiset().insert(last));
            assert forall|x: RowView| #[trigger]
                init_a.to_multiset().count(x) == init_b.to_multiset().count(x) by {
                broadcast use vstd::multiset::group_multiset_properties;

                assert(a.to_multiset().count(x) == init_a.to_multiset().insert(last).count(x));
                assert(b.to_multiset().count(x) == init_b.to_multiset().insert(last).count(x));
            }
        }
        assert forall|i: int, j: int| 0 <= i < j < init_a.len() implies row_leq(
            #[trigger] init_a[i],
            #[trigger] init_a[j],
        ) by {
            assert(row_leq(a[i], a[j]));
        }
        assert forall|i: int, j: int| 0 <= i < j < init_b.len() implies row_leq(
            #[trigger] init_b[i],
            #[trigger] init_b[j],
        ) by {
            assert(row_leq(b[i], b[j]));
        }
        lemma_one_order(init_a, init_b);
    }
}

proof fn lemma_kept_count(rows: Seq<RowView>, pred: spec_fn(RowView) -> bool, x: RowView)
    ensures
        rows.filter(pred).to_multiset().count(x) == if pred(x) {
            rows.to_multiset().count(x)
        } else {
            0
        },
    decreases rows.len(),
{
    broadcast use vstd::seq_lib::group_to_multiset_ensures;

    reveal(Seq::filter);
    if rows.len() == 0 {
        assert(rows.filter(pred) =~= Seq::empty());
        assert(rows.to_multiset().len() == 0);
        assert(rows.filter(pred).to_multiset().len() == 0);
        assert(!rows.contains(x));
        assert(!rows.filter(pred).contains(x));
    } else {
        let init = rows.drop_last();
        lemma_kept_count(init, pred, x);
        assert(rows =~= init.push(rows.last()));
        assert(rows.to_multiset() =~= init.to_multiset().insert(rows.last()));
        if pred(rows.last()) {
            assert(rows.filter(pred) =~= init.filter(pred).push(rows.last()));
        } else {
            assert(rows.filter(pred) =~= init.filter(pred));
        }
    }
}

proof fn lemma_same_sections(a: Seq<RowView>, b: Seq<RowView>, n: int)
    requires
        0 <= n <= 6,
        a.to_multiset() == b.to_multiset(),
    ensures
        sections_of(a, n) == sections_of(b, n),
    decreases n,
{
    if n > 0 {
        lemma_same_sections(a, b, n - 1);
        let category = category_at(n - 1);
        let pred = |r: RowView| r.category == category;
        assert(a.filter(pred).to_multiset() =~= b.filter(pred).to_multiset()) by {
            assert forall|x: RowView| #[trigger]
                a.filter(pred).to_multiset().count(x) == b.filter(pred).to_multiset().count(x) by {
                lemma_kept_count(a, pred, x);
                lemma_kept_count(b, pred, x);
            }
        }
        law_sorted_rows_are_the_rows_in_order(a.filter(pred));
        law_sorted_rows_are_the_rows_in_order(b.filter(pred));
        lemma_one_order(rows_sorted(a.filter(pred)), rows_sorted(b.filter(pred)));
        assert(rows_in(a, category) == rows_in(b, category));
    }
}

/// The card does not depend on the order in which the bindings are listed.
pub proof fn law_card_ignores_listing_order(
    a: Seq<RowView>,
    b: Seq<RowView>,
    lines_per_col: int,
)
    requires
        a.to_multiset() == b.to_multiset(),
    ensures
        rows_sorted(a) == rows_sorted(b),
        columns_of(a, lines_per_col) == columns_of(b, lines_per_col),
{
    law_sorted_rows_are_the_rows_in_order(a);
    law_sorted_rows_are_the_rows_in_order(b);
    lemma_one_order(rows_sorted(a), rows_sorted(b));
    lemma_same_sections(a, b, 6);
}

/// All sections of some columns, one after another.
pub open spec fn unpacked(columns: Seq<Seq<Seq<BlockView>>>) -> Seq<Seq<BlockView>>
    decreases columns.len(),
{
    if columns.len() == 0 {
        Seq::empty()
    } else {
        unpacked(columns.drop_last()) + columns.last()
    }
}

/// Packing keeps every section whole and in order: the columns hold exactly the
/// sections, and a column longer than the limit holds a single one.
pub proof fn law_sections_stay_whole(sections: Seq<Seq<BlockView>>, limit: int)
    requires
        forall|i: int| 0 <= i < sections.len() ==> (#[trigger] sections[i]).len() > 0,
    ensures
        unpacked(packed(sections, limit)) == sections,
        forall|c: int|
            0 <= c < packed(sections, limit).len() && (#[trigger] packed(sections, limit)[c]).len()
                != 1 ==> lines(packed(sections, limit)[c]).len() <= max_limit(limit),
    decreases sections.len(),
{
    let columns = packed(sections, limit);
    if sections.len() == 0 {
        assert(columns.drop_last() =~= Seq::empty());
        assert(unpacked(columns) =~= sections) by {
            assert(unpacked(columns.drop_last()) =~= Seq::empty());
        }
        assert(lines(columns[0]).len() == 0);
    } else {
        let init = packed(sections.drop_last(), limit);
        let section = sections.last();
        law_sections_stay_whole(sections.drop_last(), limit);
        lemma_packed_nonempty(sections.drop_last(), limit);
        assert(section == sections[sections.len() - 1]);
        let used = lines(init.last()).len();
        assert(sections =~= sections.drop_last().push(section));
        if used > 0 && used + section.len() > limit {
            assert(columns.drop_last() =~= init);
            assert(unpacked(columns) =~= sections);
            assert forall|c: int| 0 <= c < columns.len() && (#[trigger] columns[c]).len()
                != 1 implies lines(columns[c]).len() <= max_limit(limit) by {
                assert(columns[c] == init[c]);
            }
        } else {
            let grown = init.last().push(section);
            assert(columns.drop_last() =~= init.drop_last());
            assert(unpacked(columns) =~= sections);
            assert(grown.drop_last() =~= init.last());
            assert(lines(grown).len() == used + section.len());
            if used == 0 && init.last().len() > 0 {
                lemma_lines_nonempty(init.last());
                assert forall|i: int| 0 <= i < init.last().len() implies (#[trigger] init.last()[i]).len()
                    > 0 by {
                    let at = unpacked(init.drop_last()).len() + i;
                    assert(unpacked(init)[at] == init.last()[i]);
                    assert(sections[at] == init.last()[i]);
                }
            }
            assert forall|c: int| 0 <= c < columns.len() && (#[trigger] columns[c]).len()
                != 1 implies lines(columns[c]).len() <= max_limit(limit) by {
                if c < columns.len() - 1 {
                    assert(columns[c] == init[c]);
                }
            }
        }
    }
}

/// A column's limit, at least 0.
pub open spec fn max_limit(limit: int) -> int {
    if limit < 0 {
        0
    } else {
        limit
    }
}

proof fn lemma_lines_nonempty(column: Seq<Seq<BlockView>>)
    requires
        column.len() > 0,
    ensures
        lines(column).len() >= column.last().len(),
{
}

/// Each category has its own place among the sections and its own heading.
pub proof fn law_categories_have_their_place(c: Category, d: Category, i: int)
    ensures
        0 <= c.rank() < 6,
        category_at(c.rank()) == c,
        0 <= i < 6 ==> category_at(i).rank() == i,
        c.rank() == d.rank() ==> c == d,
        c.title_text() == d.title_text() ==> c == d,
{
    reveal_strlit("Applications");
    reveal_strlit("Navigation");
    reveal_strlit("View");
    reveal_strlit("Windows");
    reveal_strlit("Zoom");
    reveal_strlit("System");
    let (a, b) = (c.title_text(), d.title_text());
    if a == b {
        assert(a.len() == b.len());
        assert(a[0] == b[0]);
    }
}

/// Dictionary order goes by the first character that differs, by code point; a text
/// comes before those that go on after it.
pub proof fn law_first_difference_decides(a: Seq<char>, b: Seq<char>, i: int)
    requires
        0 <= i <= a.len(),
        i <= b.len(),
        forall|k: int| 0 <= k < i ==> a[k] == b[k],
    ensures
        i < a.len() && i < b.len() && a[i] < b[i] ==> text_leq(a, b, 0) && !text_leq(b, a, 0),
        i == a.len() ==> text_leq(a, b, 0),
        i == a.len() && a.len() < b.len() ==> !text_leq(b, a, 0),
{
    lemma_skip_equal(a, b, 0, i);
    lemma_skip_equal(b, a, 0, i);
}

proof fn lemma_skip_equal(a: Seq<char>, b: Seq<char>, from: int, i: int)
    requires
        0 <= from <= i <= a.len(),
        i <= b.len(),
        forall|k: int| from <= k < i ==> a[k] == b[k],
    ensures
        text_leq(a, b, from) == text_leq(a, b, i),
    decreases i - from,
{
    if from < i {
        lemma_skip_equal(a, b, from + 1, i);
    }
}

/// Rows go by their section first, then by what they do, then by their keys.
pub proof fn law_rows_go_by_section_first(a: RowView, b: RowView)
    ensures
        a.category.rank() < b.category.rank() ==> row_leq(a, b) && !row_leq(b, a),
        a.category == b.category && a.desc != b.desc && text_leq(a.desc, b.desc, 0) ==> row_leq(
            a,
            b,
        ) && !row_leq(b, a),
        a.category == b.category && a.desc == b.desc ==> (row_leq(a, b) <==> text_leq(
            a.keys,
            b.keys,
            0,
        )),
{
    if a.category == b.category && a.desc != b.desc && text_leq(a.desc, b.desc, 0) && text_leq(
        b.desc,
        a.desc,
        0,
    ) {
        lemma_text_antisymmetric(a.desc, b.desc, 0);
    }
}

/// A category has a section exactly if it has a row: its heading, then all of its
/// rows, in order, and no other line.
pub proof fn law_section_holds_its_rows(rows: Seq<RowView>, category: Category)
    ensures
        ({
            let section = section_of(rows, category);
            let own = rows_in(rows, category);
            &&& section.len() == own.len() + 1
            &&& section[0] == BlockView::Header(category.title_text())
            &&& forall|k: int|
                0 <= k < own.len() ==> section[k + 1] == (BlockView::Row {
                    keys: (#[trigger] own[k]).keys,
                    desc: own[k].desc,
                })
            &&& in_order(own)
            &&& own.to_multiset() == rows.filter(
                |r: RowView| r.category == category,
            ).to_multiset()
            &&& own.len() == rows.filter(|r: RowView| r.category == category).len()
        }),
{
    let kept = rows.filter(|r: RowView| r.category == category);
    law_sorted_rows_are_the_rows_in_order(kept);
    kept.to_multiset_ensures();
    rows_sorted(kept).to_multiset_ensures();
}

/// The sections stand in the order of their categories; one is there exactly if
/// its category has a row.
pub proof fn law_sections_stand_in_order(rows: Seq<RowView>, n: int, i: int)
    requires
        0 <= n <= 6,
        0 <= i < n,
    ensures
        sections_of(rows, i + 1) == if rows_in(rows, category_at(i)).len() > 0 {
            sections_of(rows, i).push(section_of(rows, category_at(i)))
        } else {
            sections_of(rows, i)
        },
        sections_of(rows, 0).len() == 0,
        sections_of(rows, i + 1).is_prefix_of(sections_of(rows, n)),
    decreases n - i,
{
    if i + 1 < n {
        law_sections_stand_in_order(rows, n, i + 1);
        assert(sections_of(rows, i + 1).is_prefix_of(sections_of(rows, i + 2)));
    }
}

/// The lines of some sections are the sections' lines, one section after another.
pub proof fn law_lines_follow_the_sections(sections: Seq<Seq<BlockView>>)
    ensures
        lines(sections) == sections.flatten(),
    decreases sections.len(),
{
    if sections.len() > 0 {
        let init = sections.drop_last();
        law_lines_follow_the_sections(init);
        init.lemma_flatten_push(sections.last());
        assert(init.push(sections.last()) =~= sections);
    }
}

/// A column is begun only where the next section does not fit in the one before.
pub proof fn law_columns_are_filled(sections: Seq<Seq<BlockView>>, limit: int, c: int)
    requires
        0 <= c,
        c + 1 < packed(sections, limit).len(),
        forall|i: int| 0 <= i < sections.len() ==> (#[trigger] sections[i]).len() > 0,
    ensures
        packed(sections, limit)[c + 1].len() > 0,
        lines(packed(sections, limit)[c]).len() + packed(sections, limit)[c + 1][0].len() > limit,
        lines(packed(sections, limit)[c]).len() > 0,
    decreases sections.len(),
{
    if sections.len() > 0 {
        let rest = sections.drop_last();
        let init = packed(rest, limit);
        let section = sections.last();
        let all = packed(sections, limit);
        lemma_packed_nonempty(rest, limit);
        assert(forall|i: int| 0 <= i < rest.len() ==> rest[i] == #[trigger] sections[i]);
        if c + 1 < init.len() {
            law_columns_are_filled(rest, limit, c);
            if all.len() == init.len() && c + 1 == init.len() - 1 {
                assert(all[c + 1] == init.last().push(section));
                assert(all[c + 1][0] == init[c + 1][0]);
            } else {
                assert(all[c + 1] == init[c + 1]);
            }
            assert(all[c] == init[c]);
        } else {
            assert(all[c + 1] == seq![section]);
            assert(all[c] == init.last());
        }
    }
}

/// The columns hold the lines of all sections, one after another; a column's limit
/// is one line at least.
pub proof fn law_columns_hold_every_line(rows: Seq<RowView>, lines_per_col: int)
    ensures
        columns_of(rows, lines_per_col).flatten() == sections_of(rows, 6).flatten(),
        lines_per_col <= 1 ==> columns_of(rows, lines_per_col) == columns_of(rows, 1),
{
    let limit = if lines_per_col < 1 {
        1
    } else {
        lines_per_col
    };
    let sections = sections_of(rows, 6);
    lemma_sections_not_empty(rows, 6);
    law_sections_stay_whole(sections, limit);
    lemma_flatten_columns(packed(sections, limit));
    law_lines_follow_the_sections(sections);
}

proof fn lemma_sections_not_empty(rows: Seq<RowView>, n: int)
    ensures
        forall|i: int|
            0 <= i < sections_of(rows, n).len() ==> (#[trigger] sections_of(rows, n)[i]).len() > 0,
    decreases n,
{
    if n > 0 {
        lemma_sections_not_empty(rows, n - 1);
        let init = sections_of(rows, n - 1);
        let all = sections_of(rows, n);
        assert forall|i: int| 0 <= i < all.len() implies (#[trigger] all[i]).len() > 0 by {
            if i < init.len() {
                assert(all[i] == init[i]);
            } else {
                law_section_holds_its_rows(rows, category_at(n - 1));
            }
        }
    }
}

proof fn lemma_flatten_columns(columns: Seq<Seq<Seq<BlockView>>>)
    ensures
        columns.map_values(|column: Seq<Seq<BlockView>>| lines(column)).flatten() == unpacked(
            columns,
        ).flatten(),
    decreases columns.len(),
{
    let text = |column: Seq<Seq<BlockView>>| lines(column);
    if columns.len() > 0 {
        let init = columns.drop_last();
        lemma_flatten_columns(init);
        let mapped = init.map_values(text);
        assert(columns.map_values(text) =~= mapped.push(lines(columns.last())));
        mapped.lemma_flatten_push(lines(columns.last()));
        law_lines_follow_the_sections(columns.last());
        vstd::seq_lib::lemma_flatten_concat(unpacked(init), columns.last());
    } else {
        assert(columns.map_values(text) =~= Seq::empty());
    }
}

/// A binding's row says what its action does, in the action's section, and its keys
/// with their modifiers.
pub proof fn law_row_says_what_its_binding_does(combo: KeyCombo, action: Action)
    ensures
        row_of(combo, action).category == action_text(action).0,
        row_of(combo, action).desc == action_text(action).1,
        row_of(combo, action).keys == combo_text(combo.modifiers, key_label(combo.key@)),
{
}

} // verus!
