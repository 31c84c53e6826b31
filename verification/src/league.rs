//! Extraction of a league's teams from a standings/roster page.
//!
//! The first table whose header row mentions a squad, team or club marker
//! term is read; each body row contributes one team, identified by the
//! squad identifier inside its profile link.

use vstd::prelude::*;
use crate::dom::{
    DomTable, RowV, TableV, CellKind, first_cell, row_is_repeat_header, first_table_where,
    lemma_first_table_is, lemma_first_table_none, lemma_first_cell_range,
};
use crate::errors::ExtractError;
use crate::text::{
    contains_ci, str_contains_ci, trim_seq, str_trim, split_seq, str_split_char, str_eq,
};

verus! {

/// One team as found on the roster page: display name, squad identifier,
/// and its profile address.
pub struct TeamSource {
    pub name: String,
    pub id: String,
    pub base_url: String,
}

#[verifier::ext_equal]
pub ghost struct TeamSourceV {
    pub name: Seq<char>,
    pub id: Seq<char>,
    pub base_url: Seq<char>,
}

impl DeepView for TeamSource {
    type V = TeamSourceV;

    open spec fn deep_view(&self) -> TeamSourceV {
        TeamSourceV { name: self.name@, id: self.id@, base_url: self.base_url@ }
    }
}

/// A header cell that marks a roster table, up to ASCII case.
pub open spec fn header_marks_roster(h: Seq<char>) -> bool {
    contains_ci(h, "squad"@) || contains_ci(h, "team"@) || contains_ci(h, "club"@)
}

/// A table whose headers mark it as the roster table.
pub open spec fn table_is_roster(t: TableV) -> bool {
    exists|i: int| 0 <= i < t.headers.len() && header_marks_roster(#[trigger] t.headers[i])
}

/// Index of the first link cell a roster-row selector reaches: the first
/// cell whose column marker is `squad` or `team` and which carries a link.
pub open spec fn roster_link_cell(cells: Seq<crate::dom::CellV>) -> int {
    let a = first_cell(cells, "squad"@, CellKind::Any, true);
    let b = first_cell(cells, "team"@, CellKind::Any, true);
    if a < 0 {
        b
    } else if b < 0 {
        a
    } else if a <= b {
        a
    } else {
        b
    }
}

/// Index of the first `squads` segment of a split link path, or -1.
pub open spec fn first_squads_segment(parts: Seq<Seq<char>>) -> int
    decreases parts.len(),
{
    if parts.len() == 0 {
        -1int
    } else if parts[0] == "squads"@ {
        0int
    } else {
        let r = first_squads_segment(parts.drop_first());
        if r < 0 {
            -1int
        } else {
            1 + r
        }
    }
}

pub proof fn lemma_first_squads_is(parts: Seq<Seq<char>>, k: int)
    requires
        0 <= k < parts.len(),
        parts[k] == "squads"@,
        forall|l: int| 0 <= l < k ==> #[trigger] parts[l] != "squads"@,
    ensures
        first_squads_segment(parts) == k,
    decreases k,
{
    if k > 0 {
        lemma_first_squads_is(parts.drop_first(), k - 1);
    }
}

pub proof fn lemma_first_squads_none(parts: Seq<Seq<char>>)
    requires
        forall|l: int| 0 <= l < parts.len() ==> #[trigger] parts[l] != "squads"@,
    ensures
        first_squads_segment(parts) == -1,
    decreases parts.len(),
{
    if parts.len() > 0 {
        lemma_first_squads_none(parts.drop_first());
    }
}

/// What one roster row contributes: a team, when the row has a squad link
/// whose path contains a `squads` segment followed by the identifier.
pub open spec fn classify_roster_row(row: RowV) -> Option<TeamSourceV> {
    if row_is_repeat_header(row) {
        None
    } else {
        let c = roster_link_cell(row.cells);
        if c < 0 {
            None
        } else {
            let link = row.cells[c].link->0;
            let name = trim_seq(link.text);
            match link.href {
                None => None,
                Some(href) => {
                    let parts = split_seq(href, '/');
                    let si = first_squads_segment(parts);
                    if si < 0 || si + 1 >= parts.len() {
                        None
                    } else {
                        let id = parts[si + 1];
                        Some(
                            TeamSourceV {
                                name,
                                id,
                                base_url: "https://fbref.com/en/squads/"@ + id + "/"@,
                            },
                        )
                    }
                },
            }
        }
    }
}

/// The teams of the roster table's rows, in table order.
pub open spec fn extract_roster_rows(rows: Seq<RowV>) -> Seq<TeamSourceV>
    decreases rows.len(),
{
    if rows.len() == 0 {
        Seq::empty()
    } else {
        match classify_roster_row(rows[0]) {
            None => extract_roster_rows(rows.drop_first()),
            Some(t) => seq![t] + extract_roster_rows(rows.drop_first()),
        }
    }
}

/// Reads one roster row, exactly as `classify_roster_row` says.
fn classify_roster_row_exec(row: &crate::dom::DomRow) -> (r: Option<TeamSource>)
    ensures
        r.deep_view() == classify_roster_row(row.deep_view()),
{
    let ghost rv = row.deep_view();
    if row.is_repeat_header() {
        return None;
    }
    let a = row.find_cell("squad", CellKind::Any, true);
    let b = row.find_cell("team", CellKind::Any, true);
    let c: usize = match (a, b) {
        (None, None) => {
            return None;
        },
        (Some(x), None) => x,
        (None, Some(y)) => y,
        (Some(x), Some(y)) => if x <= y {
            x
        } else {
            y
        },
    };
    proof {
        assert(c as int == roster_link_cell(rv.cells));
        lemma_first_cell_range(rv.cells, "squad"@, CellKind::Any, true);
        lemma_first_cell_range(rv.cells, "team"@, CellKind::Any, true);
    }
    let link = match &row.cells[c].link {
        Some(l) => l,
        None => vstd::pervasive::unreached(),
    };
    let name = str_trim(link.text.as_str());
    let href = match &link.href {
        Some(h) => h,
        None => {
            return None;
        },
    };
    let parts = str_split_char(href.as_str(), '/');
    let ghost pv = split_seq(href@, '/');
    let np = parts.len();
    let mut si: usize = 0;
    let mut found = false;
    while si < np && !found
        invariant
            pv == parts.deep_view(),
            np == pv.len(),
            si <= np,
            !found ==> forall|l: int| 0 <= l < si ==> #[trigger] pv[l] != "squads"@,
            found ==> si < np && pv[si as int] == "squads"@ && (forall|l: int|
                0 <= l < si ==> #[trigger] pv[l] != "squads"@),
        decreases np - si + (if found {
            0int
        } else {
            1int
        }),
    {
        if str_eq(parts[si].as_str(), "squads") {
            found = true;
        } else {
            si = si + 1;
        }
    }
    if !found {
        proof {
            lemma_first_squads_none(pv);
        }
        return None;
    }
    proof {
        lemma_first_squads_is(pv, si as int);
    }
    if si + 1 >= np {
        return None;
    }
    let id = parts[si + 1].clone();
    let mut base_url = "https://fbref.com/en/squads/".to_owned();
    base_url.append(id.as_str());
    base_url.append("/");
    proof {
        assert(base_url@ =~= "https://fbref.com/en/squads/"@ + id@ + "/"@);
    }
    Some(TeamSource { name, id, base_url })
}

/// Extracts the league's teams from the first roster table of the
/// document's tables; fails when no table's headers mark it as a roster.
pub fn get_teams(tables: &Vec<DomTable>) -> (r: Result<Vec<TeamSource>, ExtractError>)
    ensures
        r matches Ok(ts) ==> first_table_where(tables.deep_view(), |t: TableV| table_is_roster(t))
            >= 0 && ts.deep_view() == extract_roster_rows(
            tables.deep_view()[first_table_where(
                tables.deep_view(),
                |t: TableV| table_is_roster(t),
            )].rows,
        ),
        r matches Err(e) ==> e == ExtractError::NoSuitableTable && first_table_where(
            tables.deep_view(),
            |t: TableV| table_is_roster(t),
        ) == -1,
{
    let ghost tv = tables.deep_view();
    let ghost pred = |t: TableV| table_is_roster(t);
    let n = tables.len();
    let mut ti: usize = 0;
    let mut target: Option<usize> = None;
    while ti < n && target.is_none()
        invariant
            tv == tables.deep_view(),
            n == tv.len(),
            ti <= n,
            target is None ==> forall|l: int| 0 <= l < ti ==> !table_is_roster(#[trigger] tv[l]),
            target matches Some(x) ==> ti < n && x == ti && table_is_roster(tv[ti as int]) && (
            forall|l: int| 0 <= l < ti ==> !table_is_roster(#[trigger] tv[l])),
        decreases n - ti + (if target is None {
            1int
        } else {
            0int
        }),
    {
        let hs = &tables[ti].headers;
        let m = hs.len();
        let mut hi: usize = 0;
        let mut is_roster = false;
        while hi < m && !is_roster
            invariant
                tv == tables.deep_view(),
                ti < n,
                n == tv.len(),
                m == tv[ti as int].headers.len(),
                hs.deep_view() == tv[ti as int].headers,
                hi <= m,
                !is_roster ==> forall|l: int|
                    0 <= l < hi ==> !header_marks_roster(#[trigger] tv[ti as int].headers[l]),
                is_roster ==> table_is_roster(tv[ti as int]),
            decreases m - hi + (if is_roster {
                0int
            } else {
                1int
            }),
        {
            let h = hs[hi].as_str();
            if str_contains_ci(h, "squad") || str_contains_ci(h, "team") || str_contains_ci(
                h,
                "club",
            ) {
                proof {
                    assert(header_marks_roster(tv[ti as int].headers[hi as int]));
                }
                is_roster = true;
            } else {
                hi = hi + 1;
            }
        }
        if is_roster {
            target = Some(ti);
        } else {
            proof {
                assert(!table_is_roster(tv[ti as int]));
            }
            ti = ti + 1;
        }
    }
    let t = match target {
        Some(x) => x,
        None => {
            proof {
                lemma_first_table_none(tv, pred);
            }
            return Err(ExtractError::NoSuitableTable);
        },
    };
    proof {
        lemma_first_table_is(tv, pred, t as int);
    }
    let ghost rows = tv[t as int].rows;
    let table = &tables[t];
    let nr = table.rows.len();
    let mut out: Vec<TeamSource> = Vec::new();
    let mut i: usize = 0;
    proof {
        assert(rows.skip(0) =~= rows);
        assert(out.deep_view() + extract_roster_rows(rows) =~= extract_roster_rows(rows));
    }
    while i < nr
        invariant
            tv == tables.deep_view(),
            t < tv.len(),
            rows == tv[t as int].rows,
            nr == rows.len(),
            table == &tables[t as int],
            i <= nr,
            out.deep_view() + extract_roster_rows(rows.skip(i as int)) == extract_roster_rows(rows),
        decreases nr - i,
    {
        let ghost rest = rows.skip(i as int);
        proof {
            assert(rest[0] == rows[i as int]);
            assert(rest.drop_first() =~= rows.skip(i + 1));
        }
        match classify_roster_row_exec(&table.rows[i]) {
            None => {},
            Some(ts) => {
                let ghost out0 = out.deep_view();
                let ghost v = ts.deep_view();
                out.push(ts);
                proof {
                    assert(out.deep_view() =~= out0.push(v));
                    assert(out.deep_view() + extract_roster_rows(rows.skip(i + 1)) =~= out0 + (seq![
                        v] + extract_roster_rows(rows.skip(i + 1))));
                }
            },
        }
        i = i + 1;
    }
    proof {
        assert(rows.skip(nr as int) =~= Seq::<RowV>::empty());
        assert(out.deep_view() + extract_roster_rows(rows.skip(nr as int)) =~= out.deep_view());
    }
    Ok(out)
}

} // verus!
