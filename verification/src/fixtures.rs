//! Extraction of upcoming fixtures from a results/schedule table.
//!
//! Only future fixtures are harvested from this table shape: rows whose
//! score cell already shows a result are excluded, repeated header rows are
//! skipped, and the scan stops at the first row dated past the given limit
//! (the rows are date-ordered at the source).

use vstd::prelude::*;
use crate::dom::{
    DomRow, DomTable, RowV, TableV, CellKind, first_cell, row_is_repeat_header, table_has_class,
    lemma_first_cell_range,
};
use crate::dates::{Ymd, spec_parse_ymd, parse_ymd, ymd_gt, ymd_after};
use crate::text::{trim_seq, str_trim, has_digit, str_has_digit, contains_char, str_contains_char};
use crate::urls::{
    spec_absolutize, absolutize, spec_synthetic_url, synthetic_fixture_url,
};

verus! {

/// One upcoming fixture as read off a schedule row.
pub struct MatchBasicInfo {
    pub date: String,
    pub home_team: String,
    pub away_team: String,
    pub url: String,
    pub venue: String,
    pub time: String,
    pub home_url: String,
    pub away_url: String,
}

#[verifier::ext_equal]
pub ghost struct MatchBasicInfoV {
    pub date: Seq<char>,
    pub home_team: Seq<char>,
    pub away_team: Seq<char>,
    pub url: Seq<char>,
    pub venue: Seq<char>,
    pub time: Seq<char>,
    pub home_url: Seq<char>,
    pub away_url: Seq<char>,
}

impl DeepView for MatchBasicInfo {
    type V = MatchBasicInfoV;

    open spec fn deep_view(&self) -> MatchBasicInfoV {
        MatchBasicInfoV {
            date: self.date@,
            home_team: self.home_team@,
            away_team: self.away_team@,
            url: self.url@,
            venue: self.venue@,
            time: self.time@,
            home_url: self.home_url@,
            away_url: self.away_url@,
        }
    }
}

/// What one schedule row contributes: nothing, a hard stop, or a fixture.
pub enum FixtureRowAction {
    Skip,
    Stop,
    Take(MatchBasicInfo),
}

#[verifier::ext_equal]
pub ghost enum FixtureRowActionV {
    Skip,
    Stop,
    Take(MatchBasicInfoV),
}

impl DeepView for FixtureRowAction {
    type V = FixtureRowActionV;

    open spec fn deep_view(&self) -> FixtureRowActionV {
        match self {
            FixtureRowAction::Skip => FixtureRowActionV::Skip,
            FixtureRowAction::Stop => FixtureRowActionV::Stop,
            FixtureRowAction::Take(f) => FixtureRowActionV::Take(f.deep_view()),
        }
    }
}

/// The text of the row's score cell (empty when the cell is absent).
pub open spec fn fixture_score_text(row: RowV) -> Seq<char> {
    let sc = first_cell(row.cells, "score"@, CellKind::Body, false);
    if sc >= 0 {
        row.cells[sc].text
    } else {
        Seq::empty()
    }
}

/// The score separator glyph the source prints between two finished scores.
pub open spec fn score_separator() -> char {
    '\u{2013}'
}

/// How one schedule row is read. A repeated header row, a row without a
/// date, home or away link, and a row already carrying a result are
/// skipped; a row dated past `limit` stops the scan; anything else becomes
/// a fixture, identified by its report link or a synthetic placeholder.
pub open spec fn classify_fixture_row(row: RowV, limit: Ymd) -> FixtureRowActionV {
    if row_is_repeat_header(row) {
        FixtureRowActionV::Skip
    } else {
        let dc = first_cell(row.cells, "date"@, CellKind::Body, true);
        if dc < 0 {
            FixtureRowActionV::Skip
        } else {
            let date = row.cells[dc].link->0.text;
            let tc = first_cell(row.cells, "start_time"@, CellKind::Body, false);
            let time = if tc >= 0 {
                trim_seq(row.cells[tc].text)
            } else {
                Seq::empty()
            };
            let past_limit = match spec_parse_ymd(date) {
                Some(d) => ymd_gt(d, limit),
                None => false,
            };
            if past_limit {
                FixtureRowActionV::Stop
            } else {
                let hc = first_cell(row.cells, "home_team"@, CellKind::Body, true);
                let ac = first_cell(row.cells, "away_team"@, CellKind::Body, true);
                if hc < 0 || ac < 0 {
                    FixtureRowActionV::Skip
                } else {
                    let home = row.cells[hc].link->0.text;
                    let home_url = match row.cells[hc].link->0.href {
                        Some(h) => spec_absolutize(h),
                        None => Seq::empty(),
                    };
                    let away = row.cells[ac].link->0.text;
                    let away_url = match row.cells[ac].link->0.href {
                        Some(h) => spec_absolutize(h),
                        None => Seq::empty(),
                    };
                    let score_txt = fixture_score_text(row);
                    if has_digit(score_txt) && contains_char(score_txt, score_separator()) {
                        FixtureRowActionV::Skip
                    } else {
                        let vc = first_cell(row.cells, "venue"@, CellKind::Body, false);
                        let venue0 = if vc >= 0 {
                            trim_seq(row.cells[vc].text)
                        } else {
                            Seq::empty()
                        };
                        let venue = if venue0.len() == 0 {
                            "Unknown Venue"@
                        } else {
                            venue0
                        };
                        let uc = first_cell(row.cells, "score"@, CellKind::Body, true);
                        let u1 = if uc >= 0 && row.cells[uc].link->0.href is Some {
                            Some(spec_absolutize(row.cells[uc].link->0.href->0))
                        } else {
                            None
                        };
                        let rc = first_cell(row.cells, "match_report"@, CellKind::Body, true);
                        let u2 = if u1 is Some {
                            u1
                        } else if rc >= 0 && row.cells[rc].link->0.href is Some {
                            Some(spec_absolutize(row.cells[rc].link->0.href->0))
                        } else {
                            None
                        };
                        let url = match u2 {
                            Some(u) => u,
                            None => spec_synthetic_url(date, home, away),
                        };
                        FixtureRowActionV::Take(
                            MatchBasicInfoV {
                                date,
                                home_team: home,
                                away_team: away,
                                url,
                                venue,
                                time,
                                home_url,
                                away_url,
                            },
                        )
                    }
                }
            }
        }
    }
}

/// A row whose score cell shows digits around the source's score separator
/// is a finished match, and never becomes a fixture.
pub proof fn lemma_finished_row_excluded(row: RowV, limit: Ymd)
    requires
        has_digit(fixture_score_text(row)),
        contains_char(fixture_score_text(row), score_separator()),
    ensures
        !(classify_fixture_row(row, limit) is Take),
{
}

/// Reads one schedule row, exactly as `classify_fixture_row` says.
pub fn classify_row(row: &DomRow, limit: Ymd) -> (r: FixtureRowAction)
    ensures
        r.deep_view() == classify_fixture_row(row.deep_view(), limit),
{
    let ghost rv = row.deep_view();
    if row.is_repeat_header() {
        return FixtureRowAction::Skip;
    }
    let dc = match row.find_cell("date", CellKind::Body, true) {
        Some(i) => i,
        None => {
            return FixtureRowAction::Skip;
        },
    };
    proof {
        lemma_first_cell_range(rv.cells, "date"@, CellKind::Body, true);
    }
    let date = match &row.cells[dc].link {
        Some(l) => l.text.clone(),
        None => vstd::pervasive::unreached(),
    };
    let time = match row.find_cell("start_time", CellKind::Body, false) {
        Some(tc) => str_trim(row.cells[tc].text.as_str()),
        None => String::new(),
    };
    let mut past_limit = false;
    if let Some(d) = parse_ymd(date.as_str()) {
        if ymd_after(d, limit) {
            past_limit = true;
        }
    }
    if past_limit {
        return FixtureRowAction::Stop;
    }
    let hc = match row.find_cell("home_team", CellKind::Body, true) {
        Some(i) => i,
        None => {
            return FixtureRowAction::Skip;
        },
    };
    let ac = match row.find_cell("away_team", CellKind::Body, true) {
        Some(i) => i,
        None => {
            return FixtureRowAction::Skip;
        },
    };
    proof {
        lemma_first_cell_range(rv.cells, "home_team"@, CellKind::Body, true);
        lemma_first_cell_range(rv.cells, "away_team"@, CellKind::Body, true);
    }
    let (home, home_url) = match &row.cells[hc].link {
        Some(l) => (
            l.text.clone(),
            match &l.href {
                Some(h) => absolutize(h.as_str()),
                None => String::new(),
            },
        ),
        None => vstd::pervasive::unreached(),
    };
    let (away, away_url) = match &row.cells[ac].link {
        Some(l) => (
            l.text.clone(),
            match &l.href {
                Some(h) => absolutize(h.as_str()),
                None => String::new(),
            },
        ),
        None => vstd::pervasive::unreached(),
    };
    let score_txt = match row.find_cell("score", CellKind::Body, false) {
        Some(sc) => row.cells[sc].text.clone(),
        None => String::new(),
    };
    proof {
        assert(score_txt@ == fixture_score_text(rv));
    }
    if str_has_digit(score_txt.as_str()) && str_contains_char(score_txt.as_str(), '\u{2013}') {
        return FixtureRowAction::Skip;
    }
    let venue = match row.find_cell("venue", CellKind::Body, false) {
        Some(vc) => {
            let v = str_trim(row.cells[vc].text.as_str());
            if v.unicode_len() == 0 {
                "Unknown Venue".to_owned()
            } else {
                v
            }
        },
        None => "Unknown Venue".to_owned(),
    };
    let mut url_found: Option<String> = None;
    if let Some(uc) = row.find_cell("score", CellKind::Body, true) {
        proof {
            lemma_first_cell_range(rv.cells, "score"@, CellKind::Body, true);
        }
        if let Some(l) = &row.cells[uc].link {
            if let Some(h) = &l.href {
                url_found = Some(absolutize(h.as_str()));
            }
        }
    }
    if url_found.is_none() {
        if let Some(rc) = row.find_cell("match_report", CellKind::Body, true) {
            proof {
                lemma_first_cell_range(rv.cells, "match_report"@, CellKind::Body, true);
            }
            if let Some(l) = &row.cells[rc].link {
                if let Some(h) = &l.href {
                    url_found = Some(absolutize(h.as_str()));
                }
            }
        }
    }
    let url = match url_found {
        Some(u) => u,
        None => synthetic_fixture_url(date.as_str(), home.as_str(), away.as_str()),
    };
    FixtureRowAction::Take(
        MatchBasicInfo { date, home_team: home, away_team: away, url, venue, time, home_url, away_url },
    )
}

/// The fixtures the rows of one table yield, up to the first row past the
/// date limit.
pub open spec fn extract_fixture_rows(rows: Seq<RowV>, limit: Ymd) -> Seq<MatchBasicInfoV>
    decreases rows.len(),
{
    if rows.len() == 0 {
        Seq::empty()
    } else {
        match classify_fixture_row(rows[0], limit) {
            FixtureRowActionV::Skip => extract_fixture_rows(rows.drop_first(), limit),
            FixtureRowActionV::Stop => Seq::empty(),
            FixtureRowActionV::Take(f) => seq![f] + extract_fixture_rows(rows.drop_first(), limit),
        }
    }
}

/// Whether the scan stops inside these rows.
pub open spec fn rows_stop(rows: Seq<RowV>, limit: Ymd) -> bool
    decreases rows.len(),
{
    if rows.len() == 0 {
        false
    } else {
        match classify_fixture_row(rows[0], limit) {
            FixtureRowActionV::Stop => true,
            _ => rows_stop(rows.drop_first(), limit),
        }
    }
}

/// The fixtures of a whole document: the rows of every `stats_table`
/// table, in document order, until the scan stops.
pub open spec fn extract_fixtures(tables: Seq<TableV>, limit: Ymd) -> Seq<MatchBasicInfoV>
    decreases tables.len(),
{
    if tables.len() == 0 {
        Seq::empty()
    } else if !table_has_class(tables[0], "stats_table"@) {
        extract_fixtures(tables.drop_first(), limit)
    } else {
        let fs = extract_fixture_rows(tables[0].rows, limit);
        if rows_stop(tables[0].rows, limit) {
            fs
        } else {
            fs + extract_fixtures(tables.drop_first(), limit)
        }
    }
}

/// Reads one table's rows, appending the fixtures found; reports whether
/// the scan stopped.
fn process_fixture_table(table: &DomTable, limit: Ymd, out: &mut Vec<MatchBasicInfo>) -> (stopped:
    bool)
    ensures
        final(out).deep_view() == old(out).deep_view() + extract_fixture_rows(
            table.deep_view().rows,
            limit,
        ),
        stopped == rows_stop(table.deep_view().rows, limit),
{
    let ghost rows = table.deep_view().rows;
    let n = table.rows.len();
    let mut i: usize = 0;
    proof {
        assert(rows.skip(0) =~= rows);
        assert(old(out).deep_view() + extract_fixture_rows(rows, limit) =~= old(out).deep_view()
            + extract_fixture_rows(rows.skip(0), limit));
    }
    while i < n
        invariant
            rows == table.deep_view().rows,
            n == rows.len(),
            i <= n,
            out.deep_view() + extract_fixture_rows(rows.skip(i as int), limit) == old(
                out,
            ).deep_view() + extract_fixture_rows(rows, limit),
            rows_stop(rows, limit) == rows_stop(rows.skip(i as int), limit),
        decreases n - i,
    {
        let ghost rest = rows.skip(i as int);
        proof {
            assert(rest[0] == rows[i as int]);
            assert(rest.drop_first() =~= rows.skip(i + 1));
        }
        match classify_row(&table.rows[i], limit) {
            FixtureRowAction::Skip => {},
            FixtureRowAction::Stop => {
                proof {
                    assert(extract_fixture_rows(rest, limit) =~= Seq::<MatchBasicInfoV>::empty());
                    assert(out.deep_view() + extract_fixture_rows(rest, limit) =~= out.deep_view());
                }
                return true;
            },
            FixtureRowAction::Take(f) => {
                let ghost out0 = out.deep_view();
                let ghost fv = f.deep_view();
                out.push(f);
                proof {
                    assert(out.deep_view() =~= out0.push(fv));
                    assert(out.deep_view() + extract_fixture_rows(rows.skip(i + 1), limit) =~= out0
                        + (seq![fv] + extract_fixture_rows(rows.skip(i + 1), limit)));
                }
            },
        }
        i = i + 1;
    }
    proof {
        assert(rows.skip(n as int) =~= Seq::<RowV>::empty());
        assert(out.deep_view() + extract_fixture_rows(rows.skip(n as int), limit) =~= out.deep_view());
    }
    false
}

/// Harvests the upcoming fixtures of a schedule document: every row of
/// every `stats_table` table, skipping repeated headers and already played
/// matches, stopping at the first row dated past `limit`.
pub fn scrape_fixtures(tables: &Vec<DomTable>, limit: Ymd) -> (r: Vec<MatchBasicInfo>)
    ensures
        r.deep_view() == extract_fixtures(tables.deep_view(), limit),
{
    let ghost tv = tables.deep_view();
    let mut out: Vec<MatchBasicInfo> = Vec::new();
    let n = tables.len();
    let mut ti: usize = 0;
    proof {
        assert(tv.skip(0) =~= tv);
        assert(out.deep_view() + extract_fixtures(tv, limit) =~= extract_fixtures(tv, limit));
    }
    while ti < n
        invariant
            tv == tables.deep_view(),
            n == tv.len(),
            ti <= n,
            out.deep_view() + extract_fixtures(tv.skip(ti as int), limit) == extract_fixtures(
                tv,
                limit,
            ),
        decreases n - ti,
    {
        let ghost rest = tv.skip(ti as int);
        proof {
            assert(rest[0] == tv[ti as int]);
            assert(rest.drop_first() =~= tv.skip(ti + 1));
        }
        let cls = "stats_table";
        if tables[ti].has_class(cls) {
            let stopped = process_fixture_table(&tables[ti], limit, &mut out);
            if stopped {
                return out;
            }
            proof {
                assert(out.deep_view() + extract_fixtures(tv.skip(ti + 1), limit) =~= out.deep_view()
                    + extract_fixtures(tv.skip(ti + 1), limit));
            }
        }
        ti = ti + 1;
    }
    proof {
        assert(tv.skip(n as int) =~= Seq::<TableV>::empty());
        assert(out.deep_view() + extract_fixtures(tv.skip(n as int), limit) =~= out.deep_view());
    }
    out
}

} // verus!
