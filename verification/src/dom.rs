//! The plain document model the extraction rules read.
//!
//! A scraped page is handed over as plain values: its tables (identifier,
//! class tokens, header texts, rows of cells keyed by their per-column
//! `data-stat` marker), the scorebox metadata rows, the scorebox team names
//! and links. Whatever produced the model — a fetched document run through
//! an HTML parser — stays outside; every rule over the model is verified.

use vstd::prelude::*;
use crate::text::{contains_seq, str_contains};

verus! {

/// A hyperlink inside a cell: its text and, when present, its target.
pub struct DomLink {
    pub text: String,
    pub href: Option<String>,
}

/// One table cell: its column marker, whether it is a header cell (`th`),
/// its full text, and its first link, if any.
pub struct DomCell {
    pub stat: String,
    pub is_header: bool,
    pub text: String,
    pub link: Option<DomLink>,
}

/// One body row: its class attribute and its cells in document order.
pub struct DomRow {
    pub class: String,
    pub cells: Vec<DomCell>,
}

/// One table: identifier, class tokens, header-cell texts, body rows.
pub struct DomTable {
    pub id: String,
    pub classes: Vec<String>,
    pub headers: Vec<String>,
    pub rows: Vec<DomRow>,
}

/// A whole match page: its tables, the scorebox metadata rows' texts, the
/// scorebox team names, and the scorebox links.
pub struct DomPage {
    pub has_scorebox: bool,
    pub tables: Vec<DomTable>,
    pub meta_rows: Vec<String>,
    pub team_names: Vec<String>,
    pub scorebox_links: Vec<DomLink>,
}

#[verifier::ext_equal]
pub ghost struct LinkV {
    pub text: Seq<char>,
    pub href: Option<Seq<char>>,
}

#[verifier::ext_equal]
pub ghost struct CellV {
    pub stat: Seq<char>,
    pub is_header: bool,
    pub text: Seq<char>,
    pub link: Option<LinkV>,
}

#[verifier::ext_equal]
pub ghost struct RowV {
    pub class: Seq<char>,
    pub cells: Seq<CellV>,
}

#[verifier::ext_equal]
pub ghost struct TableV {
    pub id: Seq<char>,
    pub classes: Seq<Seq<char>>,
    pub headers: Seq<Seq<char>>,
    pub rows: Seq<RowV>,
}

#[verifier::ext_equal]
pub ghost struct PageV {
    pub has_scorebox: bool,
    pub tables: Seq<TableV>,
    pub meta_rows: Seq<Seq<char>>,
    pub team_names: Seq<Seq<char>>,
    pub scorebox_links: Seq<LinkV>,
}

impl DeepView for DomLink {
    type V = LinkV;

    open spec fn deep_view(&self) -> LinkV {
        LinkV { text: self.text@, href: self.href.deep_view() }
    }
}

impl DeepView for DomCell {
    type V = CellV;

    open spec fn deep_view(&self) -> CellV {
        CellV {
            stat: self.stat@,
            is_header: self.is_header,
            text: self.text@,
            link: self.link.deep_view(),
        }
    }
}

impl DeepView for DomRow {
    type V = RowV;

    open spec fn deep_view(&self) -> RowV {
        RowV { class: self.class@, cells: self.cells.deep_view() }
    }
}

impl DeepView for DomTable {
    type V = TableV;

    open spec fn deep_view(&self) -> TableV {
        TableV {
            id: self.id@,
            classes: self.classes.deep_view(),
            headers: self.headers.deep_view(),
            rows: self.rows.deep_view(),
        }
    }
}

impl DeepView for DomPage {
    type V = PageV;

    open spec fn deep_view(&self) -> PageV {
        PageV {
            has_scorebox: self.has_scorebox,
            tables: self.tables.deep_view(),
            meta_rows: self.meta_rows.deep_view(),
            team_names: self.team_names.deep_view(),
            scorebox_links: self.scorebox_links.deep_view(),
        }
    }
}

// ---------------------------------------------------------------------------
// Locating cells inside a row
// ---------------------------------------------------------------------------

/// Which cells a selector reaches: any cell, only body cells (`td`), or
/// only header cells (`th`).
#[derive(Clone, Copy, PartialEq, Eq, Structural)]
pub enum CellKind {
    Any,
    Body,
    Header,
}

/// The cell carries the wanted column marker, is of the wanted kind, and —
/// when a link is required — has one.
pub open spec fn cell_matches(c: CellV, stat: Seq<char>, kind: CellKind, need_link: bool) -> bool {
    &&& c.stat == stat
    &&& match kind {
        CellKind::Any => true,
        CellKind::Body => !c.is_header,
        CellKind::Header => c.is_header,
    }
    &&& (need_link ==> c.link is Some)
}

/// Index of the first matching cell, or -1.
pub open spec fn first_cell(cells: Seq<CellV>, stat: Seq<char>, kind: CellKind, need_link: bool) -> int
    decreases cells.len(),
{
    if cells.len() == 0 {
        -1int
    } else if cell_matches(cells[0], stat, kind, need_link) {
        0int
    } else {
        let r = first_cell(cells.drop_first(), stat, kind, need_link);
        if r < 0 {
            -1int
        } else {
            1 + r
        }
    }
}

pub proof fn lemma_first_cell_is(
    cells: Seq<CellV>,
    stat: Seq<char>,
    kind: CellKind,
    need_link: bool,
    k: int,
)
    requires
        0 <= k < cells.len(),
        cell_matches(cells[k], stat, kind, need_link),
        forall|l: int| 0 <= l < k ==> !cell_matches(#[trigger] cells[l], stat, kind, need_link),
    ensures
        first_cell(cells, stat, kind, need_link) == k,
    decreases k,
{
    if k > 0 {
        lemma_first_cell_is(cells.drop_first(), stat, kind, need_link, k - 1);
    }
}

pub proof fn lemma_first_cell_none(cells: Seq<CellV>, stat: Seq<char>, kind: CellKind, need_link: bool)
    requires
        forall|l: int|
            0 <= l < cells.len() ==> !cell_matches(#[trigger] cells[l], stat, kind, need_link),
    ensures
        first_cell(cells, stat, kind, need_link) == -1,
    decreases cells.len(),
{
    if cells.len() > 0 {
        lemma_first_cell_none(cells.drop_first(), stat, kind, need_link);
    }
}

pub proof fn lemma_first_cell_range(cells: Seq<CellV>, stat: Seq<char>, kind: CellKind, need_link: bool)
    ensures
        -1 <= first_cell(cells, stat, kind, need_link) < cells.len(),
        first_cell(cells, stat, kind, need_link) >= 0 ==> cell_matches(
            cells[first_cell(cells, stat, kind, need_link)],
            stat,
            kind,
            need_link,
        ),
    decreases cells.len(),
{
    if cells.len() > 0 && !cell_matches(cells[0], stat, kind, need_link) {
        lemma_first_cell_range(cells.drop_first(), stat, kind, need_link);
    }
}

impl DomRow {
    /// Index of the first cell the selector
    /// `kind[data-stat='stat'] (a)?` reaches in this row.
    pub fn find_cell(&self, stat: &str, kind: CellKind, need_link: bool) -> (r: Option<usize>)
        ensures
            match r {
                Some(i) => i < self.cells.len() && first_cell(
                    self.deep_view().cells,
                    stat@,
                    kind,
                    need_link,
                ) == i as int,
                None => first_cell(self.deep_view().cells, stat@, kind, need_link) == -1,
            },
    {
        let ghost cv = self.deep_view().cells;
        let n = self.cells.len();
        let mut i: usize = 0;
        while i < n
            invariant
                cv == self.deep_view().cells,
                n == cv.len(),
                i <= n,
                forall|l: int| 0 <= l < i ==> !cell_matches(#[trigger] cv[l], stat@, kind, need_link),
            decreases n - i,
        {
            let c = &self.cells[i];
            let kind_ok = match kind {
                CellKind::Any => true,
                CellKind::Body => !c.is_header,
                CellKind::Header => c.is_header,
            };
            let link_ok = !need_link || c.link.is_some();
            if kind_ok && link_ok && crate::text::str_eq(c.stat.as_str(), stat) {
                proof {
                    assert(cell_matches(cv[i as int], stat@, kind, need_link));
                    lemma_first_cell_is(cv, stat@, kind, need_link, i as int);
                }
                return Some(i);
            }
            proof {
                assert(!cell_matches(cv[i as int], stat@, kind, need_link));
            }
            i = i + 1;
        }
        proof {
            lemma_first_cell_none(cv, stat@, kind, need_link);
        }
        None
    }

    /// Whether this row is a repeated in-body header row, marked by the
    /// structural `thead` class.
    pub fn is_repeat_header(&self) -> (r: bool)
        ensures
            r == row_is_repeat_header(self.deep_view()),
    {
        let thead = "thead";
        str_contains(self.class.as_str(), thead)
    }
}

/// Index of the first table satisfying `p`, or -1.
pub open spec fn first_table_where(ts: Seq<TableV>, p: spec_fn(TableV) -> bool) -> int
    decreases ts.len(),
{
    if ts.len() == 0 {
        -1int
    } else if p(ts[0]) {
        0int
    } else {
        let r = first_table_where(ts.drop_first(), p);
        if r < 0 {
            -1int
        } else {
            1 + r
        }
    }
}

pub proof fn lemma_first_table_is(ts: Seq<TableV>, p: spec_fn(TableV) -> bool, k: int)
    requires
        0 <= k < ts.len(),
        p(ts[k]),
        forall|l: int| 0 <= l < k ==> !p(#[trigger] ts[l]),
    ensures
        first_table_where(ts, p) == k,
    decreases k,
{
    if k > 0 {
        lemma_first_table_is(ts.drop_first(), p, k - 1);
    }
}

pub proof fn lemma_first_table_none(ts: Seq<TableV>, p: spec_fn(TableV) -> bool)
    requires
        forall|l: int| 0 <= l < ts.len() ==> !p(#[trigger] ts[l]),
    ensures
        first_table_where(ts, p) == -1,
    decreases ts.len(),
{
    if ts.len() > 0 {
        lemma_first_table_none(ts.drop_first(), p);
    }
}

pub proof fn lemma_first_table_range(ts: Seq<TableV>, p: spec_fn(TableV) -> bool)
    ensures
        -1 <= first_table_where(ts, p) < ts.len(),
        first_table_where(ts, p) >= 0 ==> p(ts[first_table_where(ts, p)]),
    decreases ts.len(),
{
    if ts.len() > 0 && !p(ts[0]) {
        lemma_first_table_range(ts.drop_first(), p);
    }
}

/// A repeated in-body header row (class attribute contains `thead`).
pub open spec fn row_is_repeat_header(row: RowV) -> bool {
    contains_seq(row.class, "thead"@)
}

/// The table carries the given class token.
pub open spec fn table_has_class(t: TableV, cls: Seq<char>) -> bool {
    exists|i: int| 0 <= i < t.classes.len() && t.classes[i] == cls
}

impl DomTable {
    /// Whether the table's class tokens include `cls`.
    pub fn has_class(&self, cls: &str) -> (r: bool)
        ensures
            r == table_has_class(self.deep_view(), cls@),
    {
        let ghost tv = self.deep_view();
        let n = self.classes.len();
        let mut i: usize = 0;
        while i < n
            invariant
                tv == self.deep_view(),
                n == tv.classes.len(),
                i <= n,
                forall|l: int| 0 <= l < i ==> #[trigger] tv.classes[l] != cls@,
            decreases n - i,
        {
            if crate::text::str_eq(self.classes[i].as_str(), cls) {
                assert(tv.classes[i as int] == cls@);
                return true;
            }
            i = i + 1;
        }
        false
    }
}

} // verus!
