//! Collection of a team's historical match-report URLs from its per-season
//! match-log pages, deduplicated across seasons by URL identity.

use vstd::prelude::*;
use crate::dom::{
    DomTable, RowV, TableV, CellKind, first_cell, row_is_repeat_header, first_table_where,
    lemma_first_table_is, lemma_first_table_none, lemma_first_cell_range,
};
use crate::text::{starts_with_seq, str_starts_with, trim_seq, str_trim, str_eq};
use crate::urls::{spec_absolutize, absolutize};

verus! {

/// The fixed recent-seasons window the history crawl walks.
pub fn default_seasons() -> (r: Vec<String>)
    ensures
        r.deep_view() =~= seq!["2024-2025"@, "2023-2024"@, "2022-2023"@],
{
    let mut v: Vec<String> = Vec::new();
    v.push("2024-2025".to_owned());
    v.push("2023-2024".to_owned());
    v.push("2022-2023".to_owned());
    v
}

/// A team's match-log table, recognised by its identifier prefix.
pub open spec fn table_is_matchlog(t: TableV) -> bool {
    starts_with_seq(t.id, "matchlogs_for"@)
}

/// The report URL one match-log row carries: its `match_report` link, when
/// that link reads `Match Report` and has a target.
pub open spec fn report_url_of_row(row: RowV) -> Option<Seq<char>> {
    if row_is_repeat_header(row) {
        None
    } else {
        let c = first_cell(row.cells, "match_report"@, CellKind::Body, true);
        if c < 0 {
            None
        } else {
            let link = row.cells[c].link->0;
            if trim_seq(link.text) == "Match Report"@ && link.href is Some {
                Some(spec_absolutize(link.href->0))
            } else {
                None
            }
        }
    }
}

/// The report URLs of a sequence of match-log rows, in table order.
pub open spec fn report_urls_of_rows(rows: Seq<RowV>) -> Seq<Seq<char>>
    decreases rows.len(),
{
    if rows.len() == 0 {
        Seq::empty()
    } else {
        match report_url_of_row(rows[0]) {
            None => report_urls_of_rows(rows.drop_first()),
            Some(u) => seq![u] + report_urls_of_rows(rows.drop_first()),
        }
    }
}

/// The report URLs of one season page: those of its first match-log table.
pub open spec fn page_report_urls(tables: Seq<TableV>) -> Seq<Seq<char>> {
    let t = first_table_where(tables, |t: TableV| table_is_matchlog(t));
    if t < 0 {
        Seq::empty()
    } else {
        report_urls_of_rows(tables[t].rows)
    }
}

/// Reads one match-log row.
fn report_url_of_row_exec(row: &crate::dom::DomRow) -> (r: Option<String>)
    ensures
        r.deep_view() == report_url_of_row(row.deep_view()),
{
    let ghost rv = row.deep_view();
    if row.is_repeat_header() {
        return None;
    }
    let c = match row.find_cell("match_report", CellKind::Body, true) {
        Some(i) => i,
        None => {
            return None;
        },
    };
    proof {
        lemma_first_cell_range(rv.cells, "match_report"@, CellKind::Body, true);
    }
    let link = match &row.cells[c].link {
        Some(l) => l,
        None => vstd::pervasive::unreached(),
    };
    let label = str_trim(link.text.as_str());
    if !str_eq(label.as_str(), "Match Report") {
        return None;
    }
    match &link.href {
        Some(h) => Some(absolutize(h.as_str())),
        None => None,
    }
}

/// Extracts the report URLs of one season page.
pub fn extract_match_report_urls(tables: &Vec<DomTable>) -> (r: Vec<String>)
    ensures
        r.deep_view() == page_report_urls(tables.deep_view()),
{
    let ghost tv = tables.deep_view();
    let ghost pred = |t: TableV| table_is_matchlog(t);
    let n = tables.len();
    let mut ti: usize = 0;
    let mut target: Option<usize> = None;
    while ti < n && target.is_none()
        invariant
            tv == tables.deep_view(),
            n == tv.len(),
            ti <= n,
            target is None ==> forall|l: int| 0 <= l < ti ==> !table_is_matchlog(#[trigger] tv[l]),
            target matches Some(x) ==> ti < n && x == ti && table_is_matchlog(tv[ti as int]) && (
            forall|l: int| 0 <= l < ti ==> !table_is_matchlog(#[trigger] tv[l])),
        decreases n - ti + (if target is None {
            1int
        } else {
            0int
        }),
    {
        if str_starts_with(tables[ti].id.as_str(), "matchlogs_for") {
            target = Some(ti);
        } else {
            ti = ti + 1;
        }
    }
    let t = match target {
        Some(x) => x,
        None => {
            proof {
                lemma_first_table_none(tv, pred);
            }
            return Vec::new();
        },
    };
    proof {
        lemma_first_table_is(tv, pred, t as int);
    }
    let ghost rows = tv[t as int].rows;
    let table = &tables[t];
    let nr = table.rows.len();
    let mut out: Vec<String> = Vec::new();
    let mut i: usize = 0;
    proof {
        assert(rows.skip(0) =~= rows);
        assert(out.deep_view() + report_urls_of_rows(rows) =~= report_urls_of_rows(rows));
    }
    while i < nr
        invariant
            tv == tables.deep_view(),
            t < tv.len(),
            rows == tv[t as int].rows,
            nr == rows.len(),
            table == &tables[t as int],
            i <= nr,
            out.deep_view() + report_urls_of_rows(rows.skip(i as int)) == report_urls_of_rows(rows),
        decreases nr - i,
    {
        let ghost rest = rows.skip(i as int);
        proof {
            assert(rest[0] == rows[i as int]);
            assert(rest.drop_first() =~= rows.skip(i + 1));
        }
        match report_url_of_row_exec(&table.rows[i]) {
            None => {},
            Some(u) => {
                let ghost out0 = out.deep_view();
                let ghost uv = u@;
                out.push(u);
                proof {
                    assert(out.deep_view() =~= out0.push(uv));
                    assert(out.deep_view() + report_urls_of_rows(rows.skip(i + 1)) =~= out0 + (seq![
                        uv] + report_urls_of_rows(rows.skip(i + 1))));
                }
            },
        }
        i = i + 1;
    }
    proof {
        assert(rows.skip(nr as int) =~= Seq::<RowV>::empty());
        assert(out.deep_view() + report_urls_of_rows(rows.skip(nr as int)) =~= out.deep_view());
    }
    out
}

/// Whether some already collected URL equals `u`.
pub(crate) fn urls_contain(urls: &Vec<String>, u: &str) -> (r: bool)
    ensures
        r == urls.deep_view().contains(u@),
{
    let n = urls.len();
    let mut i: usize = 0;
    while i < n
        invariant
            n == urls.deep_view().len(),
            i <= n,
            forall|l: int| 0 <= l < i ==> #[trigger] urls.deep_view()[l] != u@,
        decreases n - i,
    {
        if str_eq(urls[i].as_str(), u) {
            assert(urls.deep_view()[i as int] == u@);
            return true;
        }
        i = i + 1;
    }
    false
}

/// Merges the report URLs of a team's season pages into one deduplicated
/// list: every URL found on some page appears exactly once.
pub fn get_team_match_history(pages: &Vec<Vec<DomTable>>) -> (r: Vec<String>)
    ensures
        r.deep_view().no_duplicates(),
        forall|u: Seq<char>|
            #[trigger] r.deep_view().contains(u) <==> exists|p: int|
                0 <= p < pages.deep_view().len() && #[trigger] page_report_urls(
                    pages.deep_view()[p],
                ).contains(u),
{
    let ghost pv = pages.deep_view();
    let np = pages.len();
    let mut out: Vec<String> = Vec::new();
    let mut p: usize = 0;
    while p < np
        invariant
            pv == pages.deep_view(),
            np == pv.len(),
            p <= np,
            out.deep_view().no_duplicates(),
            forall|u: Seq<char>|
                #[trigger] out.deep_view().contains(u) <==> exists|q: int|
                    0 <= q < p && #[trigger] page_report_urls(pv[q]).contains(u),
        decreases np - p,
    {
        let urls = extract_match_report_urls(&pages[p]);
        let ghost page_urls = page_report_urls(pv[p as int]);
        let m = urls.len();
        let mut j: usize = 0;
        while j < m
            invariant
                pv == pages.deep_view(),
                np == pv.len(),
                p < np,
                urls.deep_view() == page_urls,
                page_urls == page_report_urls(pv[p as int]),
                m == page_urls.len(),
                j <= m,
                out.deep_view().no_duplicates(),
                forall|u: Seq<char>|
                    #[trigger] out.deep_view().contains(u) <==> ((exists|q: int|
                        0 <= q < p && #[trigger] page_report_urls(pv[q]).contains(u)) || (exists|
                        l: int|
                        0 <= l < j && page_urls[l] == u)),
            decreases m - j,
        {
            let ghost out0 = out.deep_view();
            let ghost uv = urls.deep_view()[j as int];
            if !urls_contain(&out, urls[j].as_str()) {
                let u = urls[j].clone();
                out.push(u);
                proof {
                    assert(out.deep_view() =~= out0.push(uv));
                    assert(forall|a: int, b: int|
                        0 <= a < b < out.deep_view().len() ==> out.deep_view()[a]
                            != out.deep_view()[b]);
                    assert forall|u: Seq<char>| #[trigger]
                        out.deep_view().contains(u) implies ((exists|q: int|
                        0 <= q < p && #[trigger] page_report_urls(pv[q]).contains(u)) || (exists|
                        l: int|
                        0 <= l < j + 1 && page_urls[l] == u)) by {
                        let x = choose|x: int|
                            0 <= x < out.deep_view().len() && out.deep_view()[x] == u;
                        if x < out0.len() {
                            assert(out0[x] == u);
                            assert(out0.contains(u));
                        } else {
                            assert(page_urls[j as int] == u);
                        }
                    }
                }
            } else {
                proof {
                    assert(out.deep_view().contains(uv));
                }
            }
            proof {
                assert forall|u: Seq<char>|
                    ((exists|q: int| 0 <= q < p && #[trigger] page_report_urls(pv[q]).contains(u))
                        || (exists|l: int| 0 <= l < j + 1 && page_urls[l] == u)) implies #[trigger]
                    out.deep_view().contains(u) by {
                    if exists|l: int| 0 <= l < j + 1 && page_urls[l] == u {
                        let l = choose|l: int| 0 <= l < j + 1 && page_urls[l] == u;
                        if l == j {
                            if !out0.contains(uv) {
                                assert(out.deep_view()[out0.len() as int] == uv);
                            } else {
                                assert(out0.contains(u));
                            }
                        } else {
                            assert(out0.contains(u));
                        }
                    } else {
                        assert(out0.contains(u));
                    }
                    if out0.contains(u) {
                        let x = choose|x: int| 0 <= x < out0.len() && out0[x] == u;
                        assert(out.deep_view()[x] == u);
                    }
                }
            }
            j = j + 1;
        }
        proof {
            assert forall|u: Seq<char>| #[trigger]
                out.deep_view().contains(u) implies (exists|q: int|
                0 <= q < p + 1 && #[trigger] page_report_urls(pv[q]).contains(u)) by {
                if exists|l: int| 0 <= l < m && page_urls[l] == u {
                    assert(page_report_urls(pv[p as int]).contains(u));
                }
            }
            assert forall|u: Seq<char>|
                (exists|q: int| 0 <= q < p + 1 && #[trigger] page_report_urls(pv[q]).contains(
                    u,
                )) implies #[trigger] out.deep_view().contains(u) by {
                let q = choose|q: int| 0 <= q < p + 1 && page_report_urls(pv[q]).contains(u);
                if q == p {
                    let l = choose|l: int| 0 <= l < page_urls.len() && page_urls[l] == u;
                }
            }
        }
        p = p + 1;
    }
    out
}

} // verus!
