//! Extraction of a full match report: header metadata, team names, and the
//! six per-category player-statistics tables, merged into one record per
//! player and folded into team totals.
//!
//! Each category locates exactly two matching tables — first the home
//! side's, then the away side's — and each row is keyed by player name and
//! merged into the running per-player record: position and minutes are
//! filled in only once (first non-default value wins), while the
//! category-specific columns are set by that category's handler. Column
//! values are located by their per-column `data-stat` marker, never by
//! position.

use vstd::prelude::*;
use crate::dom::{
    DomRow, DomTable, DomPage, RowV, TableV, PageV, CellKind, first_cell, row_is_repeat_header,
    first_table_where, lemma_first_table_is, lemma_first_table_none, lemma_first_table_range,
    lemma_first_cell_range,
};
use crate::text::{
    contains_seq, str_contains, trim_seq, str_trim, spec_cell_u32, parse_cell_u32, spec_cell_milli,
    parse_cell_milli, str_eq, str_remove_all,
};

verus! {

/// The running per-player record while the category tables are merged;
/// real-valued statistics are carried in thousandths.
pub struct PartialPlayerStats {
    pub name: String,
    pub position: String,
    pub minutes: u32,
    pub xg_milli: u64,
    pub shots: u32,
    pub shots_on_target: u32,
    pub goals: u32,
    pub assists: u32,
    pub passes_completed: u32,
    pub progressive_passes: u32,
    pub passes_final_third: u32,
    pub passes_penalty_area: u32,
    pub key_passes: u32,
    pub corners: u32,
    pub tackles_won: u32,
    pub interceptions: u32,
    pub blocks: u32,
    pub clearances: u32,
    pub yellow_cards: u32,
    pub red_cards: u32,
    pub fouls_committed: u32,
    pub fouls_drawn: u32,
    pub aerials_won: u32,
    pub aerials_lost: u32,
    pub sca: u32,
    pub gca: u32,
    pub xa_milli: u64,
}

#[verifier::ext_equal]
pub ghost struct PpsV {
    pub name: Seq<char>,
    pub position: Seq<char>,
    pub minutes: u32,
    pub xg_milli: u64,
    pub shots: u32,
    pub shots_on_target: u32,
    pub goals: u32,
    pub assists: u32,
    pub passes_completed: u32,
    pub progressive_passes: u32,
    pub passes_final_third: u32,
    pub passes_penalty_area: u32,
    pub key_passes: u32,
    pub corners: u32,
    pub tackles_won: u32,
    pub interceptions: u32,
    pub blocks: u32,
    pub clearances: u32,
    pub yellow_cards: u32,
    pub red_cards: u32,
    pub fouls_committed: u32,
    pub fouls_drawn: u32,
    pub aerials_won: u32,
    pub aerials_lost: u32,
    pub sca: u32,
    pub gca: u32,
    pub xa_milli: u64,
}

impl DeepView for PartialPlayerStats {
    type V = PpsV;

    open spec fn deep_view(&self) -> PpsV {
        PpsV {
            name: self.name@,
            position: self.position@,
            minutes: self.minutes,
            xg_milli: self.xg_milli,
            shots: self.shots,
            shots_on_target: self.shots_on_target,
            goals: self.goals,
            assists: self.assists,
            passes_completed: self.passes_completed,
            progressive_passes: self.progressive_passes,
            passes_final_third: self.passes_final_third,
            passes_penalty_area: self.passes_penalty_area,
            key_passes: self.key_passes,
            corners: self.corners,
            tackles_won: self.tackles_won,
            interceptions: self.interceptions,
            blocks: self.blocks,
            clearances: self.clearances,
            yellow_cards: self.yellow_cards,
            red_cards: self.red_cards,
            fouls_committed: self.fouls_committed,
            fouls_drawn: self.fouls_drawn,
            aerials_won: self.aerials_won,
            aerials_lost: self.aerials_lost,
            sca: self.sca,
            gca: self.gca,
            xa_milli: self.xa_milli,
        }
    }
}

/// The six statistical table categories of a match report.
#[derive(Clone, Copy, PartialEq, Eq, Structural)]
pub enum StatCategory {
    Summary,
    Passing,
    PassingTypes,
    Defense,
    Misc,
    Gca,
}

/// The lenient integer value of the row's cell with the given column
/// marker; zero when the cell is absent.
pub open spec fn cell_u32(row: RowV, stat: Seq<char>) -> u32 {
    let c = first_cell(row.cells, stat, CellKind::Any, false);
    if c < 0 {
        0u32
    } else {
        spec_cell_u32(row.cells[c].text)
    }
}

/// The lenient decimal value of the row's cell, in thousandths.
pub open spec fn cell_milli(row: RowV, stat: Seq<char>) -> u64 {
    let c = first_cell(row.cells, stat, CellKind::Any, false);
    if c < 0 {
        0u64
    } else {
        spec_cell_milli(row.cells[c].text)
    }
}

/// Reads the lenient integer value of a row's cell.
fn cell_u32_exec(row: &DomRow, stat: &str) -> (r: u32)
    ensures
        r == cell_u32(row.deep_view(), stat@),
{
    match row.find_cell(stat, CellKind::Any, false) {
        Some(c) => parse_cell_u32(row.cells[c].text.as_str()),
        None => 0,
    }
}

/// Reads the lenient decimal value of a row's cell, in thousandths.
fn cell_milli_exec(row: &DomRow, stat: &str) -> (r: u64)
    ensures
        r == cell_milli(row.deep_view(), stat@),
{
    match row.find_cell(stat, CellKind::Any, false) {
        Some(c) => parse_cell_milli(row.cells[c].text.as_str()),
        None => 0,
    }
}

/// One category's column handler applied to one row's record.
pub open spec fn apply_category(row: RowV, s: PpsV, cat: StatCategory) -> PpsV {
    match cat {
        StatCategory::Summary => PpsV {
            xg_milli: cell_milli(row, "xg"@),
            shots: cell_u32(row, "shots"@),
            shots_on_target: cell_u32(row, "shots_on_target"@),
            goals: cell_u32(row, "goals"@),
            assists: cell_u32(row, "assists"@),
            sca: cell_u32(row, "sca"@),
            gca: cell_u32(row, "gca"@),
            ..s
        },
        StatCategory::Passing => PpsV {
            passes_completed: cell_u32(row, "passes_completed"@),
            progressive_passes: cell_u32(row, "progressive_passes"@),
            passes_final_third: cell_u32(row, "passes_into_final_third"@),
            passes_penalty_area: cell_u32(row, "passes_into_penalty_area"@),
            key_passes: cell_u32(row, "passes_key"@),
            xa_milli: if s.xa_milli == 0 {
                cell_milli(row, "xg_assist"@)
            } else {
                s.xa_milli
            },
            ..s
        },
        StatCategory::PassingTypes => PpsV { corners: cell_u32(row, "corner_kicks"@), ..s },
        StatCategory::Defense => PpsV {
            tackles_won: cell_u32(row, "tackles_won"@),
            interceptions: cell_u32(row, "interceptions"@),
            blocks: cell_u32(row, "blocks"@),
            clearances: cell_u32(row, "clearances"@),
            ..s
        },
        StatCategory::Misc => PpsV {
            yellow_cards: cell_u32(row, "cards_yellow"@),
            red_cards: cell_u32(row, "cards_red"@),
            fouls_committed: cell_u32(row, "fouls"@),
            fouls_drawn: cell_u32(row, "fouls_drawn"@),
            aerials_won: cell_u32(row, "aerials_won"@),
            aerials_lost: cell_u32(row, "aerials_lost"@),
            ..s
        },
        StatCategory::Gca => s,
    }
}

/// The player name the row is keyed by: the text of the link in its
/// `player` header cell.
pub open spec fn row_player_name(row: RowV) -> Option<Seq<char>> {
    let c = first_cell(row.cells, "player"@, CellKind::Header, true);
    if c < 0 {
        None
    } else {
        Some(trim_seq(row.cells[c].link->0.text))
    }
}

/// Index of the record with this player name, or -1.
pub open spec fn find_player_in(map: Seq<PpsV>, name: Seq<char>) -> int
    decreases map.len(),
{
    if map.len() == 0 {
        -1int
    } else if map[0].name == name {
        0int
    } else {
        let r = find_player_in(map.drop_first(), name);
        if r < 0 {
            -1int
        } else {
            1 + r
        }
    }
}

pub proof fn lemma_find_player_is(map: Seq<PpsV>, name: Seq<char>, k: int)
    requires
        0 <= k < map.len(),
        map[k].name == name,
        forall|l: int| 0 <= l < k ==> #[trigger] map[l].name != name,
    ensures
        find_player_in(map, name) == k,
    decreases k,
{
    if k > 0 {
        lemma_find_player_is(map.drop_first(), name, k - 1);
    }
}

pub proof fn lemma_find_player_none(map: Seq<PpsV>, name: Seq<char>)
    requires
        forall|l: int| 0 <= l < map.len() ==> #[trigger] map[l].name != name,
    ensures
        find_player_in(map, name) == -1,
    decreases map.len(),
{
    if map.len() > 0 {
        lemma_find_player_none(map.drop_first(), name);
    }
}

pub proof fn lemma_find_player_range(map: Seq<PpsV>, name: Seq<char>)
    ensures
        -1 <= find_player_in(map, name) < map.len(),
        find_player_in(map, name) >= 0 ==> map[find_player_in(map, name)].name == name,
    decreases map.len(),
{
    if map.len() > 0 && map[0].name != name {
        lemma_find_player_range(map.drop_first(), name);
    }
}

/// A fresh record: the player's name, the position placeholder, zeros.
pub open spec fn init_pps(name: Seq<char>) -> PpsV {
    PpsV {
        name,
        position: "N/A"@,
        minutes: 0,
        xg_milli: 0,
        shots: 0,
        shots_on_target: 0,
        goals: 0,
        assists: 0,
        passes_completed: 0,
        progressive_passes: 0,
        passes_final_third: 0,
        passes_penalty_area: 0,
        key_passes: 0,
        corners: 0,
        tackles_won: 0,
        interceptions: 0,
        blocks: 0,
        clearances: 0,
        yellow_cards: 0,
        red_cards: 0,
        fouls_committed: 0,
        fouls_drawn: 0,
        aerials_won: 0,
        aerials_lost: 0,
        sca: 0,
        gca: 0,
        xa_milli: 0,
    }
}

/// Position and minutes are filled in only once: the first non-default
/// value wins.
pub open spec fn update_pos_min(row: RowV, s: PpsV) -> PpsV {
    let s1 = if s.position == "N/A"@ {
        let c = first_cell(row.cells, "position"@, CellKind::Any, false);
        if c >= 0 {
            PpsV { position: trim_seq(row.cells[c].text), ..s }
        } else {
            s
        }
    } else {
        s
    };
    if s1.minutes == 0 {
        PpsV { minutes: cell_u32(row, "minutes"@), ..s1 }
    } else {
        s1
    }
}

/// One row merged into the running map: repeated header rows and rows
/// without a player link contribute nothing; otherwise the row's record is
/// found or created by player name and updated by the category handler.
pub open spec fn merge_row(map: Seq<PpsV>, row: RowV, cat: StatCategory) -> Seq<PpsV> {
    if row_is_repeat_header(row) {
        map
    } else {
        match row_player_name(row) {
            None => map,
            Some(name) => {
                let i = find_player_in(map, name);
                if i < 0 {
                    let idx = map.len() as int;
                    let map1 = map.push(init_pps(name));
                    map1.update(idx, apply_category(row, update_pos_min(row, map1[idx]), cat))
                } else {
                    map.update(i, apply_category(row, update_pos_min(row, map[i]), cat))
                }
            },
        }
    }
}

/// A whole category table merged into the running map, row by row.
pub open spec fn process_table(map: Seq<PpsV>, rows: Seq<RowV>, cat: StatCategory) -> Seq<PpsV>
    decreases rows.len(),
{
    if rows.len() == 0 {
        map
    } else {
        merge_row(process_table(map, rows.drop_last(), cat), rows.last(), cat)
    }
}

/// Merging rows never duplicates a player: with pairwise distinct names in
/// the map, the merged map's names stay pairwise distinct — repeated
/// category processing updates a player's one record instead of adding a
/// second row. The map grows by at most one record per row.
pub proof fn lemma_process_table_unique(map: Seq<PpsV>, rows: Seq<RowV>, cat: StatCategory)
    requires
        forall|a: int, b: int|
            0 <= a < b < map.len() ==> #[trigger] map[a].name != #[trigger] map[b].name,
    ensures
        forall|a: int, b: int|
            0 <= a < b < process_table(map, rows, cat).len() ==> #[trigger] process_table(
                map,
                rows,
                cat,
            )[a].name != #[trigger] process_table(map, rows, cat)[b].name,
        map.len() <= process_table(map, rows, cat).len() <= map.len() + rows.len(),
    decreases rows.len(),
{
    if rows.len() > 0 {
        lemma_process_table_unique(map, rows.drop_last(), cat);
        let m1 = process_table(map, rows.drop_last(), cat);
        let row = rows.last();
        let r = process_table(map, rows, cat);
        assert(r == merge_row(m1, row, cat));
        if !row_is_repeat_header(row) {
            match row_player_name(row) {
                None => {},
                Some(name) => {
                    lemma_find_player_range(m1, name);
                    let i = find_player_in(m1, name);
                    if i < 0 {
                        assert(forall|l: int| 0 <= l < m1.len() ==> #[trigger] m1[l].name != name)
                            by {
                            if exists|l: int| 0 <= l < m1.len() && #[trigger] m1[l].name == name {
                                let l = choose|l: int| 0 <= l < m1.len() && #[trigger] m1[l].name
                                    == name;
                                lemma_find_player_is_first(m1, name, l);
                            }
                        }
                        assert(r.len() == m1.len() + 1);
                        assert(r[m1.len() as int].name == name);
                        assert(forall|l: int| 0 <= l < m1.len() ==> #[trigger] r[l].name == m1[l].name);
                    } else {
                        assert(r.len() == m1.len());
                        assert(r[i].name == m1[i].name);
                        assert(forall|l: int| 0 <= l < m1.len() && l != i ==> #[trigger] r[l].name
                            == m1[l].name);
                    }
                },
            }
        }
    }
}

/// If some record carries the name, `find_player_in` does not miss it.
pub proof fn lemma_find_player_is_first(map: Seq<PpsV>, name: Seq<char>, k: int)
    requires
        0 <= k < map.len(),
        map[k].name == name,
    ensures
        find_player_in(map, name) >= 0,
    decreases map.len(),
{
    if map[0].name != name {
        lemma_find_player_is_first(map.drop_first(), name, k - 1);
    }
}

/// Reads one row into the running map, exactly as `merge_row` says.
#[verifier::rlimit(100)]
fn merge_row_exec(map: &mut Vec<PartialPlayerStats>, row: &DomRow, cat: StatCategory)
    requires
        old(map)@.len() < usize::MAX,
    ensures
        final(map).deep_view() == merge_row(old(map).deep_view(), row.deep_view(), cat),
{
    let ghost mv = old(map).deep_view();
    let ghost rv = row.deep_view();
    if row.is_repeat_header() {
        return ;
    }
    let pc = match row.find_cell("player", CellKind::Header, true) {
        Some(i) => i,
        None => {
            return ;
        },
    };
    proof {
        lemma_first_cell_range(rv.cells, "player"@, CellKind::Header, true);
    }
    let name = match &row.cells[pc].link {
        Some(l) => str_trim(l.text.as_str()),
        None => vstd::pervasive::unreached(),
    };
    // Find or create the player's record.
    let n = map.len();
    let mut idx: usize = 0;
    let mut found = false;
    while idx < n && !found
        invariant
            mv == old(map).deep_view(),
            map.deep_view() == mv,
            n == mv.len(),
            idx <= n,
            !found ==> forall|l: int| 0 <= l < idx ==> #[trigger] mv[l].name != name@,
            found ==> idx < n && mv[idx as int].name == name@ && (forall|l: int|
                0 <= l < idx ==> #[trigger] mv[l].name != name@),
        decreases n - idx + (if found {
            0int
        } else {
            1int
        }),
    {
        if str_eq(map[idx].name.as_str(), name.as_str()) {
            found = true;
        } else {
            idx = idx + 1;
        }
    }
    if !found {
        proof {
            lemma_find_player_none(mv, name@);
        }
        let fresh = PartialPlayerStats {
            name: name.clone(),
            position: "N/A".to_owned(),
            minutes: 0,
            xg_milli: 0,
            shots: 0,
            shots_on_target: 0,
            goals: 0,
            assists: 0,
            passes_completed: 0,
            progressive_passes: 0,
            passes_final_third: 0,
            passes_penalty_area: 0,
            key_passes: 0,
            corners: 0,
            tackles_won: 0,
            interceptions: 0,
            blocks: 0,
            clearances: 0,
            yellow_cards: 0,
            red_cards: 0,
            fouls_committed: 0,
            fouls_drawn: 0,
            aerials_won: 0,
            aerials_lost: 0,
            sca: 0,
            gca: 0,
            xa_milli: 0,
        };
        proof {
            assert(fresh.deep_view() =~= init_pps(name@));
        }
        map.push(fresh);
    } else {
        proof {
            lemma_find_player_is(mv, name@, idx as int);
        }
    }
    let at = if found {
        idx
    } else {
        n
    };
    let ghost map1 = map.deep_view();
    let rec = map.remove(at);
    let rec = update_pos_min_exec(row, rec);
    let rec = apply_category_exec(row, rec, cat);
    map.insert(at, rec);
    proof {
        assert(map.deep_view() =~= map1.update(
            at as int,
            apply_category(rv, update_pos_min(rv, map1[at as int]), cat),
        ));
        assert(map.deep_view() =~= merge_row(mv, rv, cat));
    }
}

/// Fills in position and minutes, first non-default value winning.
fn update_pos_min_exec(row: &DomRow, rec: PartialPlayerStats) -> (r: PartialPlayerStats)
    ensures
        r.deep_view() == update_pos_min(row.deep_view(), rec.deep_view()),
{
    let ghost rv = row.deep_view();
    let mut rec = rec;
    if str_eq(rec.position.as_str(), "N/A") {
        if let Some(c) = row.find_cell("position", CellKind::Any, false) {
            rec.position = str_trim(row.cells[c].text.as_str());
        }
    }
    if rec.minutes == 0 {
        rec.minutes = cell_u32_exec(row, "minutes");
    }
    rec
}

/// Applies one category's column handler to one record.
fn apply_category_exec(row: &DomRow, rec: PartialPlayerStats, cat: StatCategory) -> (r:
    PartialPlayerStats)
    ensures
        r.deep_view() == apply_category(row.deep_view(), rec.deep_view(), cat),
{
    let mut rec = rec;
    match cat {
        StatCategory::Summary => {
            rec.xg_milli = cell_milli_exec(row, "xg");
            rec.shots = cell_u32_exec(row, "shots");
            rec.shots_on_target = cell_u32_exec(row, "shots_on_target");
            rec.goals = cell_u32_exec(row, "goals");
            rec.assists = cell_u32_exec(row, "assists");
            rec.sca = cell_u32_exec(row, "sca");
            rec.gca = cell_u32_exec(row, "gca");
        },
        StatCategory::Passing => {
            rec.passes_completed = cell_u32_exec(row, "passes_completed");
            rec.progressive_passes = cell_u32_exec(row, "progressive_passes");
            rec.passes_final_third = cell_u32_exec(row, "passes_into_final_third");
            rec.passes_penalty_area = cell_u32_exec(row, "passes_into_penalty_area");
            rec.key_passes = cell_u32_exec(row, "passes_key");
            if rec.xa_milli == 0 {
                rec.xa_milli = cell_milli_exec(row, "xg_assist");
            }
        },
        StatCategory::PassingTypes => {
            rec.corners = cell_u32_exec(row, "corner_kicks");
        },
        StatCategory::Defense => {
            rec.tackles_won = cell_u32_exec(row, "tackles_won");
            rec.interceptions = cell_u32_exec(row, "interceptions");
            rec.blocks = cell_u32_exec(row, "blocks");
            rec.clearances = cell_u32_exec(row, "clearances");
        },
        StatCategory::Misc => {
            rec.yellow_cards = cell_u32_exec(row, "cards_yellow");
            rec.red_cards = cell_u32_exec(row, "cards_red");
            rec.fouls_committed = cell_u32_exec(row, "fouls");
            rec.fouls_drawn = cell_u32_exec(row, "fouls_drawn");
            rec.aerials_won = cell_u32_exec(row, "aerials_won");
            rec.aerials_lost = cell_u32_exec(row, "aerials_lost");
        },
        StatCategory::Gca => {},
    }
    rec
}

/// Merges one category table into the running map, row by row.
fn process_single_table(table: &DomTable, map: &mut Vec<PartialPlayerStats>, cat: StatCategory)
    requires
        old(map)@.len() + table.rows@.len() <= usize::MAX,
    ensures
        final(map).deep_view() == process_table(
            old(map).deep_view(),
            table.deep_view().rows,
            cat,
        ),
        final(map)@.len() <= old(map)@.len() + table.rows@.len(),
{
    let ghost mv = old(map).deep_view();
    let ghost rows = table.deep_view().rows;
    let n = table.rows.len();
    let mut i: usize = 0;
    proof {
        assert(rows.take(0) =~= Seq::<RowV>::empty());
        lemma_process_table_len(mv, rows.take(0), cat);
    }
    while i < n
        invariant
            mv == old(map).deep_view(),
            rows == table.deep_view().rows,
            n == rows.len(),
            mv.len() + n <= usize::MAX,
            i <= n,
            map.deep_view() == process_table(mv, rows.take(i as int), cat),
            map@.len() <= mv.len() + i,
        decreases n - i,
    {
        proof {
            assert(rows.take(i + 1 as int).drop_last() =~= rows.take(i as int));
            assert(rows.take(i + 1 as int).last() == rows[i as int]);
        }
        merge_row_exec(map, &table.rows[i], cat);
        proof {
            lemma_merge_row_len(process_table(mv, rows.take(i as int), cat), rows[i as int], cat);
        }
        i = i + 1;
    }
    proof {
        assert(rows.take(n as int) =~= rows);
    }
}

/// Merging one row grows the map by at most one record.
pub proof fn lemma_merge_row_len(map: Seq<PpsV>, row: RowV, cat: StatCategory)
    ensures
        map.len() <= merge_row(map, row, cat).len() <= map.len() + 1,
{
    if !row_is_repeat_header(row) {
        match row_player_name(row) {
            None => {},
            Some(name) => {
                lemma_find_player_range(map, name);
            },
        }
    }
}

/// Processing a table grows the map by at most one record per row.
pub proof fn lemma_process_table_len(map: Seq<PpsV>, rows: Seq<RowV>, cat: StatCategory)
    ensures
        map.len() <= process_table(map, rows, cat).len() <= map.len() + rows.len(),
    decreases rows.len(),
{
    if rows.len() > 0 {
        lemma_process_table_len(map, rows.drop_last(), cat);
        lemma_merge_row_len(process_table(map, rows.drop_last(), cat), rows.last(), cat);
    }
}

// ---------------------------------------------------------------------------
// Locating the two tables of each category
// ---------------------------------------------------------------------------

/// A table belongs to the category when its identifier contains the
/// category's name — with `passing` disambiguated from `passing_types`.
pub open spec fn table_matches_category(t: TableV, cat: StatCategory) -> bool {
    match cat {
        StatCategory::Summary => contains_seq(t.id, "summary"@),
        StatCategory::Passing => contains_seq(t.id, "passing"@) && !contains_seq(
            t.id,
            "passing_types"@,
        ),
        StatCategory::PassingTypes => contains_seq(t.id, "passing_types"@),
        StatCategory::Defense => contains_seq(t.id, "defense"@),
        StatCategory::Misc => contains_seq(t.id, "misc"@),
        StatCategory::Gca => contains_seq(t.id, "gca"@),
    }
}

/// Index of the category's first (home) table, or -1.
pub open spec fn first_cat_table(tables: Seq<TableV>, cat: StatCategory) -> int {
    first_table_where(tables, |t: TableV| table_matches_category(t, cat))
}

/// Index of the category's second (away) table, or -1.
pub open spec fn second_cat_table(tables: Seq<TableV>, cat: StatCategory) -> int {
    let f = first_cat_table(tables, cat);
    if f < 0 {
        -1int
    } else {
        let g = first_table_where(tables.skip(f + 1), |t: TableV| table_matches_category(t, cat));
        if g < 0 {
            -1int
        } else {
            f + 1 + g
        }
    }
}

/// Tests whether a table's identifier matches the category.
fn table_matches_category_exec(t: &DomTable, cat: StatCategory) -> (r: bool)
    ensures
        r == table_matches_category(t.deep_view(), cat),
{
    let id = t.id.as_str();
    match cat {
        StatCategory::Summary => str_contains(id, "summary"),
        StatCategory::Passing => str_contains(id, "passing") && !str_contains(id, "passing_types"),
        StatCategory::PassingTypes => str_contains(id, "passing_types"),
        StatCategory::Defense => str_contains(id, "defense"),
        StatCategory::Misc => str_contains(id, "misc"),
        StatCategory::Gca => str_contains(id, "gca"),
    }
}

/// Finds the category's home and away tables: the first and second tables
/// whose identifiers match.
fn find_category_tables(tables: &Vec<DomTable>, cat: StatCategory) -> (r: Option<(usize, usize)>)
    ensures
        match r {
            Some(p) => p.0 as int == first_cat_table(tables.deep_view(), cat) && p.1 as int
                == second_cat_table(tables.deep_view(), cat),
            None => first_cat_table(tables.deep_view(), cat) < 0 || second_cat_table(
                tables.deep_view(),
                cat,
            ) < 0,
        },
{
    let ghost tv = tables.deep_view();
    let ghost pred = |t: TableV| table_matches_category(t, cat);
    let n = tables.len();
    let mut i: usize = 0;
    let mut first: Option<usize> = None;
    while i < n && first.is_none()
        invariant
            tv == tables.deep_view(),
            n == tv.len(),
            i <= n,
            first is None ==> forall|l: int|
                0 <= l < i ==> !table_matches_category(#[trigger] tv[l], cat),
            first matches Some(x) ==> i < n && x == i && table_matches_category(tv[i as int], cat)
                && (forall|l: int| 0 <= l < i ==> !table_matches_category(#[trigger] tv[l], cat)),
        decreases n - i + (if first is None {
            1int
        } else {
            0int
        }),
    {
        if table_matches_category_exec(&tables[i], cat) {
            first = Some(i);
        } else {
            i = i + 1;
        }
    }
    let f = match first {
        Some(x) => x,
        None => {
            proof {
                lemma_first_table_none(tv, pred);
            }
            return None;
        },
    };
    proof {
        lemma_first_table_is(tv, pred, f as int);
    }
    let mut j: usize = f + 1;
    let mut second: Option<usize> = None;
    while j < n && second.is_none()
        invariant
            tv == tables.deep_view(),
            n == tv.len(),
            f < n,
            f + 1 <= j <= n,
            second is None ==> forall|l: int|
                f + 1 <= l < j ==> !table_matches_category(#[trigger] tv[l], cat),
            second matches Some(x) ==> j < n && x == j && table_matches_category(tv[j as int], cat)
                && (forall|l: int|
                f + 1 <= l < j ==> !table_matches_category(#[trigger] tv[l], cat)),
        decreases n - j + (if second is None {
            1int
        } else {
            0int
        }),
    {
        if table_matches_category_exec(&tables[j], cat) {
            second = Some(j);
        } else {
            j = j + 1;
        }
    }
    let ghost rest = tv.skip(f + 1);
    match second {
        Some(s) => {
            proof {
                assert(forall|l: int| 0 <= l < rest.len() ==> rest[l] == tv[f + 1 + l]);
                lemma_first_table_is(rest, pred, s - f - 1);
            }
            Some((f, s))
        },
        None => {
            proof {
                assert(forall|l: int| 0 <= l < rest.len() ==> rest[l] == tv[f + 1 + l]);
                lemma_first_table_none(rest, pred);
            }
            None
        },
    }
}

/// One category merged into both sides' maps: the first matching table is
/// the home side's, the second the away side's; with fewer than two
/// matching tables the category is skipped and the partial result kept.
pub open spec fn process_category(
    tables: Seq<TableV>,
    cat: StatCategory,
    home: Seq<PpsV>,
    away: Seq<PpsV>,
) -> (Seq<PpsV>, Seq<PpsV>) {
    let f = first_cat_table(tables, cat);
    let s = second_cat_table(tables, cat);
    if f >= 0 && s >= 0 {
        (process_table(home, tables[f].rows, cat), process_table(away, tables[s].rows, cat))
    } else {
        (home, away)
    }
}

/// All six categories merged, in their fixed order.
pub open spec fn process_all_categories(tables: Seq<TableV>) -> (Seq<PpsV>, Seq<PpsV>) {
    let p1 = process_category(tables, StatCategory::Summary, Seq::empty(), Seq::empty());
    let p2 = process_category(tables, StatCategory::Passing, p1.0, p1.1);
    let p3 = process_category(tables, StatCategory::PassingTypes, p2.0, p2.1);
    let p4 = process_category(tables, StatCategory::Defense, p3.0, p3.1);
    let p5 = process_category(tables, StatCategory::Misc, p4.0, p4.1);
    process_category(tables, StatCategory::Gca, p5.0, p5.1)
}

/// Every table's row count is within the budget the merge arithmetic
/// assumes.
pub open spec fn tables_bounded(tables: Seq<TableV>) -> bool {
    forall|t: int| 0 <= t < tables.len() ==> #[trigger] tables[t].rows.len() <= 0x1_0000
}

/// Runs one category over both maps.
fn process_category_exec(
    tables: &Vec<DomTable>,
    cat: StatCategory,
    home: &mut Vec<PartialPlayerStats>,
    away: &mut Vec<PartialPlayerStats>,
)
    requires
        tables_bounded(tables.deep_view()),
        old(home)@.len() + 0x1_0000 <= usize::MAX,
        old(away)@.len() + 0x1_0000 <= usize::MAX,
    ensures
        final(home).deep_view() == process_category(
            tables.deep_view(),
            cat,
            old(home).deep_view(),
            old(away).deep_view(),
        ).0,
        final(away).deep_view() == process_category(
            tables.deep_view(),
            cat,
            old(home).deep_view(),
            old(away).deep_view(),
        ).1,
        final(home)@.len() <= old(home)@.len() + 0x1_0000,
        final(away)@.len() <= old(away)@.len() + 0x1_0000,
{
    match find_category_tables(tables, cat) {
        Some(pair) => {
            let (f, s) = pair;
            proof {
                let tv = tables.deep_view();
                let pred = |t: TableV| table_matches_category(t, cat);
                lemma_first_table_range(tv, pred);
                lemma_first_table_range(tv.skip(f + 1 as int), pred);
                assert(tv[f as int].rows.len() <= 0x1_0000);
                assert(tv[s as int].rows.len() <= 0x1_0000);
            }
            process_single_table(&tables[f], home, cat);
            process_single_table(&tables[s], away, cat);
        },
        None => {},
    }
}

// ---------------------------------------------------------------------------
// Header metadata
// ---------------------------------------------------------------------------

#[verifier::ext_equal]
pub ghost struct MetaV {
    pub venue: Seq<char>,
    pub referee: Seq<char>,
    pub attendance: Option<u32>,
}

/// The venue a labelled metadata row carries: the label and colon removed,
/// edges trimmed.
pub open spec fn clean_venue(t: Seq<char>) -> Seq<char> {
    trim_seq(crate::text::remove_all_seq(crate::text::remove_all_seq(t, "Venue"@), ":"@))
}

/// The attendance count a labelled metadata row carries, if it parses.
pub open spec fn attendance_of(t: Seq<char>) -> Option<u32> {
    crate::text::spec_parse_u32(
        trim_seq(
            crate::text::remove_all_seq(
                crate::text::remove_all_seq(crate::text::remove_all_seq(t, "Attendance"@), ":"@),
                ","@,
            ),
        ),
    )
}

/// The referee name a labelled metadata row carries.
pub open spec fn clean_referee(t: Seq<char>) -> Seq<char> {
    trim_seq(
        crate::text::remove_all_seq(
            crate::text::remove_all_seq(
                crate::text::remove_all_seq(crate::text::remove_all_seq(t, "Referee"@), "Officials"@),
                ":"@,
            ),
            "(Referee)"@,
        ),
    )
}

/// The header metadata of a match page, scanned row by row for the keyword
/// markers; a later labelled row overwrites an earlier one.
pub open spec fn meta_fold(rows: Seq<Seq<char>>) -> MetaV
    decreases rows.len(),
{
    if rows.len() == 0 {
        MetaV { venue: Seq::empty(), referee: Seq::empty(), attendance: None }
    } else {
        let m = meta_fold(rows.drop_last());
        let t = rows.last();
        if contains_seq(t, "Venue"@) {
            MetaV { venue: clean_venue(t), ..m }
        } else if contains_seq(t, "Attendance"@) {
            MetaV { attendance: attendance_of(t), ..m }
        } else if contains_seq(t, "Referee"@) || contains_seq(t, "Official"@) {
            MetaV { referee: clean_referee(t), ..m }
        } else {
            m
        }
    }
}

/// Scans the scorebox metadata rows for venue, attendance and referee.
fn scan_meta(rows: &Vec<String>) -> (r: (String, String, Option<u32>))
    ensures
        r.0@ == meta_fold(rows.deep_view()).venue,
        r.1@ == meta_fold(rows.deep_view()).referee,
        r.2 == meta_fold(rows.deep_view()).attendance,
{
    let ghost rv = rows.deep_view();
    let mut venue = String::new();
    let mut referee = String::new();
    let mut attendance: Option<u32> = None;
    let n = rows.len();
    let mut i: usize = 0;
    proof {
        assert(rv.take(0) =~= Seq::<Seq<char>>::empty());
    }
    while i < n
        invariant
            rv == rows.deep_view(),
            n == rv.len(),
            i <= n,
            venue@ == meta_fold(rv.take(i as int)).venue,
            referee@ == meta_fold(rv.take(i as int)).referee,
            attendance == meta_fold(rv.take(i as int)).attendance,
        decreases n - i,
    {
        proof {
            assert(rv.take(i + 1 as int).drop_last() =~= rv.take(i as int));
            assert(rv.take(i + 1 as int).last() == rv[i as int]);
            reveal_strlit(":");
            reveal_strlit(",");
            reveal_strlit("Venue");
            reveal_strlit("Attendance");
            reveal_strlit("Referee");
            reveal_strlit("Officials");
            reveal_strlit("(Referee)");
        }
        let t = rows[i].as_str();
        if str_contains(t, "Venue") {
            venue = str_trim(str_remove_all(str_remove_all(t, "Venue").as_str(), ":").as_str());
        } else if str_contains(t, "Attendance") {
            let cleaned = str_trim(
                str_remove_all(
                    str_remove_all(str_remove_all(t, "Attendance").as_str(), ":").as_str(),
                    ",",
                ).as_str(),
            );
            attendance = crate::text::parse_u32_strict(cleaned.as_str());
        } else if str_contains(t, "Referee") || str_contains(t, "Official") {
            referee = str_trim(
                str_remove_all(
                    str_remove_all(
                        str_remove_all(str_remove_all(t, "Referee").as_str(), "Officials").as_str(),
                        ":",
                    ).as_str(),
                    "(Referee)",
                ).as_str(),
            );
        }
        i = i + 1;
    }
    proof {
        assert(rv.take(n as int) =~= rv);
    }
    (venue, referee, attendance)
}

// ---------------------------------------------------------------------------
// Folding a side's map into team totals
// ---------------------------------------------------------------------------

/// The sum of one statistic over a side's records.
pub open spec fn sum_of(map: Seq<PpsV>, f: spec_fn(PpsV) -> int) -> int
    decreases map.len(),
{
    if map.len() == 0 {
        0int
    } else {
        sum_of(map.drop_last(), f) + f(map.last())
    }
}

/// One record narrowed to the persisted per-player statistics.
pub open spec fn player_stats_of(p: PpsV) -> crate::db::PlayerStatsV {
    crate::db::PlayerStatsV {
        name: p.name,
        position: p.position,
        minutes: p.minutes,
        goals: p.goals,
        assists: p.assists,
        shots: p.shots,
        shots_on_target: p.shots_on_target,
        xg_milli: p.xg_milli,
        xa_milli: p.xa_milli,
        sca: p.sca,
        touches_att_pen: 0,
        progressive_carries: 0,
        tackles: p.tackles_won,
        interceptions: p.interceptions,
        fouls_committed: p.fouls_committed,
        fouls_drawn: p.fouls_drawn,
    }
}

/// A side's totals: every counting statistic summed over its players.
/// Possession, saves, post-shot expected goals and expected goals against
/// are not derivable from the per-player category tables and stay at their
/// neutral defaults here (the caller cross-assigns the expected goals
/// against).
pub open spec fn spec_team_stats(map: Seq<PpsV>, name: Seq<char>) -> crate::db::TeamStatsV {
    crate::db::TeamStatsV {
        name,
        xg_milli: sum_of(map, |p: PpsV| p.xg_milli as int) as u64,
        xga_milli: 0,
        possession_milli: 0,
        shots: sum_of(map, |p: PpsV| p.shots as int) as u64,
        shots_on_target: sum_of(map, |p: PpsV| p.shots_on_target as int) as u64,
        goals: sum_of(map, |p: PpsV| p.goals as int) as u64,
        sca: sum_of(map, |p: PpsV| p.sca as int) as u64,
        gca: sum_of(map, |p: PpsV| p.gca as int) as u64,
        passes_completed: sum_of(map, |p: PpsV| p.passes_completed as int) as u64,
        passes_progressive: sum_of(map, |p: PpsV| p.progressive_passes as int) as u64,
        passes_final_third: sum_of(map, |p: PpsV| p.passes_final_third as int) as u64,
        key_passes: sum_of(map, |p: PpsV| p.key_passes as int) as u64,
        tackles_won: sum_of(map, |p: PpsV| p.tackles_won as int) as u64,
        interceptions: sum_of(map, |p: PpsV| p.interceptions as int) as u64,
        blocks: sum_of(map, |p: PpsV| p.blocks as int) as u64,
        clearances: sum_of(map, |p: PpsV| p.clearances as int) as u64,
        aerials_won: sum_of(map, |p: PpsV| p.aerials_won as int) as u64,
        aerials_lost: sum_of(map, |p: PpsV| p.aerials_lost as int) as u64,
        saves: 0,
        psxg_milli: 0,
        fouls: sum_of(map, |p: PpsV| p.fouls_committed as int) as u64,
        yellow_cards: sum_of(map, |p: PpsV| p.yellow_cards as int) as u64,
        red_cards: sum_of(map, |p: PpsV| p.red_cards as int) as u64,
        corners: sum_of(map, |p: PpsV| p.corners as int) as u64,
        players: map.map_values(|p: PpsV| player_stats_of(p)),
    }
}

/// The largest thousandths value the lenient decimal parse can produce.
pub const MILLI_VALUE_CAP: u64 = 4_294_967_295_999;

/// The decimal cells' thousandths stay within the parse cap.
pub open spec fn pps_bounded(map: Seq<PpsV>) -> bool {
    forall|i: int|
        0 <= i < map.len() ==> #[trigger] map[i].xg_milli <= MILLI_VALUE_CAP && map[i].xa_milli
            <= MILLI_VALUE_CAP
}

/// The lenient decimal parse never exceeds the cap.
pub proof fn lemma_parse_milli_capped(s: Seq<char>)
    ensures
        crate::text::spec_parse_milli(s) <= MILLI_VALUE_CAP,
{
    let b = crate::text::unsigned_body(s);
    let d = crate::text::first_char_at(b, '.');
    let ip = if d < 0 {
        b
    } else {
        b.take(d)
    };
    let fp = if d < 0 {
        Seq::<char>::empty()
    } else {
        b.skip(d + 1)
    };
    if crate::text::digits_only(ip) {
        crate::text::lemma_digits_value_nonneg(ip);
    }
}

/// Merging rows keeps the decimal values capped.
pub proof fn lemma_process_table_capped(map: Seq<PpsV>, rows: Seq<RowV>, cat: StatCategory)
    requires
        pps_bounded(map),
    ensures
        pps_bounded(process_table(map, rows, cat)),
    decreases rows.len(),
{
    if rows.len() > 0 {
        lemma_process_table_capped(map, rows.drop_last(), cat);
        let m1 = process_table(map, rows.drop_last(), cat);
        let row = rows.last();
        let r = process_table(map, rows, cat);
        assert(r == merge_row(m1, row, cat));
        if !row_is_repeat_header(row) {
            match row_player_name(row) {
                None => {},
                Some(name) => {
                    lemma_find_player_range(m1, name);
                    let i = find_player_in(m1, name);
                    if i < 0 {
                        let idx = m1.len() as int;
                        let m2 = m1.push(init_pps(name));
                        lemma_updated_capped(row, update_pos_min(row, m2[idx]), cat);
                        assert(pps_bounded(r));
                    } else {
                        lemma_updated_capped(row, update_pos_min(row, m1[i]), cat);
                        assert(pps_bounded(r));
                    }
                },
            }
        }
    }
}

/// A category update writes capped decimal values only.
pub proof fn lemma_updated_capped(row: RowV, s: PpsV, cat: StatCategory)
    requires
        s.xg_milli <= MILLI_VALUE_CAP,
        s.xa_milli <= MILLI_VALUE_CAP,
    ensures
        apply_category(row, s, cat).xg_milli <= MILLI_VALUE_CAP,
        apply_category(row, s, cat).xa_milli <= MILLI_VALUE_CAP,
{
    match cat {
        StatCategory::Summary => {
            let c = first_cell(row.cells, "xg"@, CellKind::Any, false);
            if c >= 0 {
                lemma_first_cell_range(row.cells, "xg"@, CellKind::Any, false);
                lemma_parse_milli_capped(
                    crate::text::trim_seq(
                        crate::text::remove_all_seq(row.cells[c].text, seq![',']),
                    ),
                );
            }
        },
        StatCategory::Passing => {
            let c = first_cell(row.cells, "xg_assist"@, CellKind::Any, false);
            if c >= 0 {
                lemma_first_cell_range(row.cells, "xg_assist"@, CellKind::Any, false);
                lemma_parse_milli_capped(
                    crate::text::trim_seq(
                        crate::text::remove_all_seq(row.cells[c].text, seq![',']),
                    ),
                );
            }
        },
        _ => {},
    }
}

/// Folds one side's records into the team's totals record.
#[verifier::rlimit(60)]
pub fn build_team_stats_from_map(map: &Vec<PartialPlayerStats>, team_name: &str) -> (r:
    crate::db::TeamStats)
    requires
        map@.len() <= 0x10_0000,
        pps_bounded(map.deep_view()),
    ensures
        r.deep_view() == spec_team_stats(map.deep_view(), team_name@),
{
    let ghost mv = map.deep_view();
    let n = map.len();
    let mut xg: u64 = 0;
    let mut shots: u64 = 0;
    let mut sot: u64 = 0;
    let mut goals: u64 = 0;
    let mut sca: u64 = 0;
    let mut gca: u64 = 0;
    let mut pc: u64 = 0;
    let mut pp: u64 = 0;
    let mut pft: u64 = 0;
    let mut kp: u64 = 0;
    let mut tw: u64 = 0;
    let mut ints: u64 = 0;
    let mut blocks: u64 = 0;
    let mut clearances: u64 = 0;
    let mut aw: u64 = 0;
    let mut al: u64 = 0;
    let mut fouls: u64 = 0;
    let mut yc: u64 = 0;
    let mut rc: u64 = 0;
    let mut corners: u64 = 0;
    let mut players: Vec<crate::db::PlayerStats> = Vec::new();
    let mut i: usize = 0;
    proof {
        assert(mv.take(0) =~= Seq::<PpsV>::empty());
        assert(players.deep_view() =~= mv.take(0).map_values(|p: PpsV| player_stats_of(p)));
    }
    while i < n
        invariant
            mv == map.deep_view(),
            n == mv.len(),
            n <= 0x10_0000,
            pps_bounded(mv),
            i <= n,
            xg == sum_of(mv.take(i as int), |p: PpsV| p.xg_milli as int),
            shots == sum_of(mv.take(i as int), |p: PpsV| p.shots as int),
            sot == sum_of(mv.take(i as int), |p: PpsV| p.shots_on_target as int),
            goals == sum_of(mv.take(i as int), |p: PpsV| p.goals as int),
            sca == sum_of(mv.take(i as int), |p: PpsV| p.sca as int),
            gca == sum_of(mv.take(i as int), |p: PpsV| p.gca as int),
            pc == sum_of(mv.take(i as int), |p: PpsV| p.passes_completed as int),
            pp == sum_of(mv.take(i as int), |p: PpsV| p.progressive_passes as int),
            pft == sum_of(mv.take(i as int), |p: PpsV| p.passes_final_third as int),
            kp == sum_of(mv.take(i as int), |p: PpsV| p.key_passes as int),
            tw == sum_of(mv.take(i as int), |p: PpsV| p.tackles_won as int),
            ints == sum_of(mv.take(i as int), |p: PpsV| p.interceptions as int),
            blocks == sum_of(mv.take(i as int), |p: PpsV| p.blocks as int),
            clearances == sum_of(mv.take(i as int), |p: PpsV| p.clearances as int),
            aw == sum_of(mv.take(i as int), |p: PpsV| p.aerials_won as int),
            al == sum_of(mv.take(i as int), |p: PpsV| p.aerials_lost as int),
            fouls == sum_of(mv.take(i as int), |p: PpsV| p.fouls_committed as int),
            yc == sum_of(mv.take(i as int), |p: PpsV| p.yellow_cards as int),
            rc == sum_of(mv.take(i as int), |p: PpsV| p.red_cards as int),
            corners == sum_of(mv.take(i as int), |p: PpsV| p.corners as int),
            players.deep_view() == mv.take(i as int).map_values(|p: PpsV| player_stats_of(p)),
            xg <= (i as int) * (MILLI_VALUE_CAP as int),
            shots <= (i as int) * (u32::MAX as int),
            sot <= (i as int) * (u32::MAX as int),
            goals <= (i as int) * (u32::MAX as int),
            sca <= (i as int) * (u32::MAX as int),
            gca <= (i as int) * (u32::MAX as int),
            pc <= (i as int) * (u32::MAX as int),
            pp <= (i as int) * (u32::MAX as int),
            pft <= (i as int) * (u32::MAX as int),
            kp <= (i as int) * (u32::MAX as int),
            tw <= (i as int) * (u32::MAX as int),
            ints <= (i as int) * (u32::MAX as int),
            blocks <= (i as int) * (u32::MAX as int),
            clearances <= (i as int) * (u32::MAX as int),
            aw <= (i as int) * (u32::MAX as int),
            al <= (i as int) * (u32::MAX as int),
            fouls <= (i as int) * (u32::MAX as int),
            yc <= (i as int) * (u32::MAX as int),
            rc <= (i as int) * (u32::MAX as int),
            corners <= (i as int) * (u32::MAX as int),
        decreases n - i,
    {
        proof {
            assert(mv.take(i + 1 as int).drop_last() =~= mv.take(i as int));
            assert(mv.take(i + 1 as int).last() == mv[i as int]);
            assert(mv[i as int].xg_milli <= MILLI_VALUE_CAP);
        }
        let p = &map[i];
        xg = xg + p.xg_milli;
        shots = shots + p.shots as u64;
        sot = sot + p.shots_on_target as u64;
        goals = goals + p.goals as u64;
        sca = sca + p.sca as u64;
        gca = gca + p.gca as u64;
        pc = pc + p.passes_completed as u64;
        pp = pp + p.progressive_passes as u64;
        pft = pft + p.passes_final_third as u64;
        kp = kp + p.key_passes as u64;
        tw = tw + p.tackles_won as u64;
        ints = ints + p.interceptions as u64;
        blocks = blocks + p.blocks as u64;
        clearances = clearances + p.clearances as u64;
        aw = aw + p.aerials_won as u64;
        al = al + p.aerials_lost as u64;
        fouls = fouls + p.fouls_committed as u64;
        yc = yc + p.yellow_cards as u64;
        rc = rc + p.red_cards as u64;
        corners = corners + p.corners as u64;
        let ghost players0 = players.deep_view();
        players.push(
            crate::db::PlayerStats {
                name: p.name.clone(),
                position: p.position.clone(),
                minutes: p.minutes,
                goals: p.goals,
                assists: p.assists,
                shots: p.shots,
                shots_on_target: p.shots_on_target,
                xg_milli: p.xg_milli,
                xa_milli: p.xa_milli,
                sca: p.sca,
                touches_att_pen: 0,
                progressive_carries: 0,
                tackles: p.tackles_won,
                interceptions: p.interceptions,
                fouls_committed: p.fouls_committed,
                fouls_drawn: p.fouls_drawn,
            },
        );
        proof {
            assert(players.deep_view() =~= players0.push(player_stats_of(mv[i as int])));
            assert(players.deep_view() =~= mv.take(i + 1 as int).map_values(
                |p: PpsV| player_stats_of(p),
            ));
        }
        i = i + 1;
    }
    proof {
        assert(mv.take(n as int) =~= mv);
    }
    let r = crate::db::TeamStats {
        name: team_name.to_owned(),
        xg_milli: xg,
        xga_milli: 0,
        possession_milli: 0,
        shots,
        shots_on_target: sot,
        goals,
        sca,
        gca,
        passes_completed: pc,
        passes_progressive: pp,
        passes_final_third: pft,
        key_passes: kp,
        tackles_won: tw,
        interceptions: ints,
        blocks,
        clearances,
        aerials_won: aw,
        aerials_lost: al,
        saves: 0,
        psxg_milli: 0,
        fouls,
        yellow_cards: yc,
        red_cards: rc,
        corners,
        players,
    };
    proof {
        assert(r.deep_view() =~= spec_team_stats(mv, team_name@));
    }
    r
}

// ---------------------------------------------------------------------------
// The whole match report
// ---------------------------------------------------------------------------

/// The full extraction of one match page: header metadata, scorebox team
/// names (with placeholders when absent), both sides' player records merged
/// over the six categories, folded into team totals with the
/// expected-goals-against cross-assigned from the other side. The one hard
/// failure is a missing scorebox.
pub open spec fn spec_scrape_match(page: PageV) -> Result<
    crate::db::FootballMatchStatsV,
    crate::errors::ExtractError,
> {
    if !page.has_scorebox {
        Err(crate::errors::ExtractError::MissingScorebox)
    } else {
        let meta = meta_fold(page.meta_rows);
        let home_name = if page.team_names.len() >= 1 {
            page.team_names[0]
        } else {
            "Home"@
        };
        let away_name = if page.team_names.len() >= 2 {
            page.team_names[1]
        } else {
            "Away"@
        };
        let maps = process_all_categories(page.tables);
        let home0 = spec_team_stats(maps.0, home_name);
        let away0 = spec_team_stats(maps.1, away_name);
        Ok(
            crate::db::FootballMatchStatsV {
                context: crate::db::MatchContextV {
                    referee: meta.referee,
                    venue: meta.venue,
                    attendance: meta.attendance,
                },
                home_stats: crate::db::TeamStatsV { xga_milli: away0.xg_milli, ..home0 },
                away_stats: crate::db::TeamStatsV { xga_milli: home0.xg_milli, ..away0 },
            },
        )
    }
}

/// Extracts the statistics record of one match page.
pub fn scrape_match(page: &DomPage) -> (r: Result<
    crate::db::FootballMatchStats,
    crate::errors::ExtractError,
>)
    requires
        tables_bounded(page.deep_view().tables),
    ensures
        r matches Ok(f) ==> spec_scrape_match(page.deep_view()) matches Ok(v) && f.deep_view()
            == v,
        r matches Err(e) ==> spec_scrape_match(page.deep_view()) == Err::<
            crate::db::FootballMatchStatsV,
            crate::errors::ExtractError,
        >(e),
{
    let ghost pv = page.deep_view();
    if !page.has_scorebox {
        return Err(crate::errors::ExtractError::MissingScorebox);
    }
    let (venue, referee, attendance) = scan_meta(&page.meta_rows);
    let home_name = if page.team_names.len() >= 1 {
        page.team_names[0].clone()
    } else {
        "Home".to_owned()
    };
    let away_name = if page.team_names.len() >= 2 {
        page.team_names[1].clone()
    } else {
        "Away".to_owned()
    };
    let mut home_map: Vec<PartialPlayerStats> = Vec::new();
    let mut away_map: Vec<PartialPlayerStats> = Vec::new();
    proof {
        assert(home_map.deep_view() =~= Seq::<PpsV>::empty());
        assert(away_map.deep_view() =~= Seq::<PpsV>::empty());
    }
    process_category_exec(&page.tables, StatCategory::Summary, &mut home_map, &mut away_map);
    process_category_exec(&page.tables, StatCategory::Passing, &mut home_map, &mut away_map);
    process_category_exec(&page.tables, StatCategory::PassingTypes, &mut home_map, &mut away_map);
    process_category_exec(&page.tables, StatCategory::Defense, &mut home_map, &mut away_map);
    process_category_exec(&page.tables, StatCategory::Misc, &mut home_map, &mut away_map);
    process_category_exec(&page.tables, StatCategory::Gca, &mut home_map, &mut away_map);
    proof {
        lemma_process_all_capped(pv.tables);
        assert(home_map.deep_view() == process_all_categories(pv.tables).0);
        assert(away_map.deep_view() == process_all_categories(pv.tables).1);
    }
    let mut home_stats = build_team_stats_from_map(&home_map, home_name.as_str());
    let mut away_stats = build_team_stats_from_map(&away_map, away_name.as_str());
    home_stats.xga_milli = away_stats.xg_milli;
    away_stats.xga_milli = home_stats.xg_milli;
    let out = crate::db::FootballMatchStats {
        context: crate::db::MatchContext { referee, venue, attendance },
        home_stats,
        away_stats,
    };
    proof {
        assert(spec_scrape_match(pv) matches Ok(v) && out.deep_view() =~= v);
    }
    Ok(out)
}

/// Both sides' merged maps carry capped decimal values and pairwise
/// distinct player names, and stay within the row budget.
pub proof fn lemma_category_step(
    tables: Seq<TableV>,
    cat: StatCategory,
    home: Seq<PpsV>,
    away: Seq<PpsV>,
)
    requires
        tables_bounded(tables),
        pps_bounded(home),
        pps_bounded(away),
        forall|a: int, b: int|
            0 <= a < b < home.len() ==> #[trigger] home[a].name != #[trigger] home[b].name,
        forall|a: int, b: int|
            0 <= a < b < away.len() ==> #[trigger] away[a].name != #[trigger] away[b].name,
    ensures
        pps_bounded(process_category(tables, cat, home, away).0),
        pps_bounded(process_category(tables, cat, home, away).1),
        forall|a: int, b: int|
            0 <= a < b < process_category(tables, cat, home, away).0.len()
                ==> #[trigger] process_category(tables, cat, home, away).0[a].name
                != #[trigger] process_category(tables, cat, home, away).0[b].name,
        forall|a: int, b: int|
            0 <= a < b < process_category(tables, cat, home, away).1.len()
                ==> #[trigger] process_category(tables, cat, home, away).1[a].name
                != #[trigger] process_category(tables, cat, home, away).1[b].name,
{
    let f = first_cat_table(tables, cat);
    let s = second_cat_table(tables, cat);
    let pred = |t: TableV| table_matches_category(t, cat);
    if f >= 0 && s >= 0 {
        lemma_first_table_range(tables, pred);
        lemma_first_table_range(tables.skip(f + 1), pred);
        lemma_process_table_capped(home, tables[f].rows, cat);
        lemma_process_table_capped(away, tables[s].rows, cat);
        lemma_process_table_unique(home, tables[f].rows, cat);
        lemma_process_table_unique(away, tables[s].rows, cat);
    }
}

/// The fully merged maps carry capped decimal values and pairwise distinct
/// player names: repeated category processing for one player merges into
/// that player's one record.
pub proof fn lemma_process_all_capped(tables: Seq<TableV>)
    requires
        tables_bounded(tables),
    ensures
        pps_bounded(process_all_categories(tables).0),
        pps_bounded(process_all_categories(tables).1),
        forall|a: int, b: int|
            0 <= a < b < process_all_categories(tables).0.len() ==> #[trigger] process_all_categories(
                tables,
            ).0[a].name != #[trigger] process_all_categories(tables).0[b].name,
        forall|a: int, b: int|
            0 <= a < b < process_all_categories(tables).1.len() ==> #[trigger] process_all_categories(
                tables,
            ).1[a].name != #[trigger] process_all_categories(tables).1[b].name,
{
    let e = Seq::<PpsV>::empty();
    lemma_category_step(tables, StatCategory::Summary, e, e);
    let p1 = process_category(tables, StatCategory::Summary, e, e);
    lemma_category_step(tables, StatCategory::Passing, p1.0, p1.1);
    let p2 = process_category(tables, StatCategory::Passing, p1.0, p1.1);
    lemma_category_step(tables, StatCategory::PassingTypes, p2.0, p2.1);
    let p3 = process_category(tables, StatCategory::PassingTypes, p2.0, p2.1);
    lemma_category_step(tables, StatCategory::Defense, p3.0, p3.1);
    let p4 = process_category(tables, StatCategory::Defense, p3.0, p3.1);
    lemma_category_step(tables, StatCategory::Misc, p4.0, p4.1);
    let p5 = process_category(tables, StatCategory::Misc, p4.0, p4.1);
    lemma_category_step(tables, StatCategory::Gca, p5.0, p5.1);
}

/// A successfully extracted match record has one player entry per player
/// name on each side: merging `summary` and then `passing` rows of the same
/// player yields one record, never two.
pub proof fn lemma_one_record_per_player(page: PageV)
    requires
        spec_scrape_match(page) is Ok,
    ensures
        forall|a: int, b: int|
            0 <= a < b < (spec_scrape_match(page)->Ok_0).home_stats.players.len()
                ==> #[trigger] (spec_scrape_match(page)->Ok_0).home_stats.players[a].name
                != #[trigger] (spec_scrape_match(page)->Ok_0).home_stats.players[b].name,
        forall|a: int, b: int|
            0 <= a < b < (spec_scrape_match(page)->Ok_0).away_stats.players.len()
                ==> #[trigger] (spec_scrape_match(page)->Ok_0).away_stats.players[a].name
                != #[trigger] (spec_scrape_match(page)->Ok_0).away_stats.players[b].name,
{
    lemma_process_all_capped_names(page.tables);
}

/// Name distinctness of the merged maps, without the row-budget premise:
/// the budget only matters for the executable arithmetic, not the merge.
pub proof fn lemma_process_all_capped_names(tables: Seq<TableV>)
    ensures
        forall|a: int, b: int|
            0 <= a < b < process_all_categories(tables).0.len() ==> #[trigger] process_all_categories(
                tables,
            ).0[a].name != #[trigger] process_all_categories(tables).0[b].name,
        forall|a: int, b: int|
            0 <= a < b < process_all_categories(tables).1.len() ==> #[trigger] process_all_categories(
                tables,
            ).1[a].name != #[trigger] process_all_categories(tables).1[b].name,
{
    let e = Seq::<PpsV>::empty();
    lemma_category_names(tables, StatCategory::Summary, e, e);
    let p1 = process_category(tables, StatCategory::Summary, e, e);
    lemma_category_names(tables, StatCategory::Passing, p1.0, p1.1);
    let p2 = process_category(tables, StatCategory::Passing, p1.0, p1.1);
    lemma_category_names(tables, StatCategory::PassingTypes, p2.0, p2.1);
    let p3 = process_category(tables, StatCategory::PassingTypes, p2.0, p2.1);
    lemma_category_names(tables, StatCategory::Defense, p3.0, p3.1);
    let p4 = process_category(tables, StatCategory::Defense, p3.0, p3.1);
    lemma_category_names(tables, StatCategory::Misc, p4.0, p4.1);
    let p5 = process_category(tables, StatCategory::Misc, p4.0, p4.1);
    lemma_category_names(tables, StatCategory::Gca, p5.0, p5.1);
}

/// One category preserves pairwise distinct names on both sides.
pub proof fn lemma_category_names(
    tables: Seq<TableV>,
    cat: StatCategory,
    home: Seq<PpsV>,
    away: Seq<PpsV>,
)
    requires
        forall|a: int, b: int|
            0 <= a < b < home.len() ==> #[trigger] home[a].name != #[trigger] home[b].name,
        forall|a: int, b: int|
            0 <= a < b < away.len() ==> #[trigger] away[a].name != #[trigger] away[b].name,
    ensures
        forall|a: int, b: int|
            0 <= a < b < process_category(tables, cat, home, away).0.len()
                ==> #[trigger] process_category(tables, cat, home, away).0[a].name
                != #[trigger] process_category(tables, cat, home, away).0[b].name,
        forall|a: int, b: int|
            0 <= a < b < process_category(tables, cat, home, away).1.len()
                ==> #[trigger] process_category(tables, cat, home, away).1[a].name
                != #[trigger] process_category(tables, cat, home, away).1[b].name,
{
    let f = first_cat_table(tables, cat);
    let s = second_cat_table(tables, cat);
    let pred = |t: TableV| table_matches_category(t, cat);
    if f >= 0 && s >= 0 {
        lemma_first_table_range(tables, pred);
        lemma_first_table_range(tables.skip(f + 1), pred);
        lemma_process_table_unique(home, tables[f].rows, cat);
        lemma_process_table_unique(away, tables[s].rows, cat);
    }
}

// ---------------------------------------------------------------------------
// Team links on a match page
// ---------------------------------------------------------------------------

/// The distinct squad profile URLs among the scorebox links, in first-seen
/// order.
pub open spec fn squad_urls(links: Seq<crate::dom::LinkV>) -> Seq<Seq<char>>
    decreases links.len(),
{
    if links.len() == 0 {
        Seq::empty()
    } else {
        let prev = squad_urls(links.drop_last());
        match links.last().href {
            Some(h) => if contains_seq(h, "/squads/"@) {
                let u = crate::urls::spec_absolutize(h);
                if prev.contains(u) {
                    prev
                } else {
                    prev.push(u)
                }
            } else {
                prev
            },
            None => prev,
        }
    }
}

/// The two sides' profile URLs from the scorebox links: the first two
/// distinct squad links, failing when fewer than two are present.
pub fn get_team_urls_from_match_page(page: &DomPage) -> (r: Result<
    (String, String),
    crate::errors::ExtractError,
>)
    ensures
        r matches Ok(p) ==> squad_urls(page.deep_view().scorebox_links).len() >= 2 && p.0@
            == squad_urls(page.deep_view().scorebox_links)[0] && p.1@ == squad_urls(
            page.deep_view().scorebox_links,
        )[1],
        r matches Err(e) ==> e == crate::errors::ExtractError::TeamLinksNotFound && squad_urls(
            page.deep_view().scorebox_links,
        ).len() < 2,
{
    let ghost lv = page.deep_view().scorebox_links;
    let n = page.scorebox_links.len();
    let mut urls: Vec<String> = Vec::new();
    let mut i: usize = 0;
    proof {
        assert(lv.take(0) =~= Seq::<crate::dom::LinkV>::empty());
        assert(urls.deep_view() =~= squad_urls(lv.take(0)));
    }
    while i < n
        invariant
            lv == page.deep_view().scorebox_links,
            n == lv.len(),
            i <= n,
            urls.deep_view() == squad_urls(lv.take(i as int)),
        decreases n - i,
    {
        proof {
            assert(lv.take(i + 1 as int).drop_last() =~= lv.take(i as int));
            assert(lv.take(i + 1 as int).last() == lv[i as int]);
        }
        if let Some(h) = &page.scorebox_links[i].href {
            if str_contains(h.as_str(), "/squads/") {
                let u = crate::urls::absolutize(h.as_str());
                if !crate::team_schedule::urls_contain(&urls, u.as_str()) {
                    let ghost urls0 = urls.deep_view();
                    let ghost uv = u@;
                    urls.push(u);
                    proof {
                        assert(urls.deep_view() =~= urls0.push(uv));
                    }
                }
            }
        }
        i = i + 1;
    }
    proof {
        assert(lv.take(n as int) =~= lv);
    }
    if urls.len() >= 2 {
        let a = urls[0].clone();
        let b = urls[1].clone();
        Ok((a, b))
    } else {
        Err(crate::errors::ExtractError::TeamLinksNotFound)
    }
}

} // verus!
