use footstats::dates::Ymd;
use footstats::dom::{DomCell, DomLink, DomPage, DomRow, DomTable};
use footstats::errors::ExtractError;
use footstats::fixtures::scrape_fixtures;
use footstats::league::get_teams;
use footstats::match_stats::{get_team_urls_from_match_page, scrape_match};
use footstats::team_schedule::{extract_match_report_urls, get_team_match_history};

fn cell(stat: &str, text: &str) -> DomCell {
    DomCell { stat: stat.to_owned(), is_header: false, text: text.to_owned(), link: None }
}

fn cell_link(stat: &str, text: &str, href: Option<&str>) -> DomCell {
    DomCell {
        stat: stat.to_owned(),
        is_header: false,
        text: text.to_owned(),
        link: Some(DomLink { text: text.to_owned(), href: href.map(|h| h.to_owned()) }),
    }
}

fn header_cell_link(stat: &str, text: &str, href: Option<&str>) -> DomCell {
    DomCell {
        stat: stat.to_owned(),
        is_header: true,
        text: text.to_owned(),
        link: Some(DomLink { text: text.to_owned(), href: href.map(|h| h.to_owned()) }),
    }
}

fn row(cells: Vec<DomCell>) -> DomRow {
    DomRow { class: String::new(), cells }
}

fn fixture_row(date: &str, home: &str, away: &str, score: &str) -> DomRow {
    row(vec![
        cell_link("date", date, Some("/dates/x")),
        cell("start_time", " 15:00 "),
        cell_link("home_team", home, Some("/squads/h1/Home")),
        cell_link("away_team", away, Some("/squads/a1/Away")),
        cell("score", score),
        cell("venue", " Big Stadium "),
        cell_link("match_report", "Match Report", Some("/matches/m1/Report")),
    ])
}

fn fixtures_table(rows: Vec<DomRow>) -> DomTable {
    DomTable {
        id: "sched_2024".to_owned(),
        classes: vec!["stats_table".to_owned()],
        headers: vec![],
        rows,
    }
}

const LIMIT: Ymd = Ymd { year: 2030, month: 1, day: 1 };

#[test]
fn fixture_row_is_harvested_with_all_fields() {
    let tables = vec![fixtures_table(vec![fixture_row("2024-05-01", "Alpha", "Beta", "")])];
    let out = scrape_fixtures(&tables, LIMIT);
    assert_eq!(out.len(), 1);
    assert_eq!(out[0].date, "2024-05-01");
    assert_eq!(out[0].home_team, "Alpha");
    assert_eq!(out[0].away_team, "Beta");
    assert_eq!(out[0].time, "15:00");
    assert_eq!(out[0].venue, "Big Stadium");
    assert_eq!(out[0].url, "https://fbref.com/matches/m1/Report");
    assert_eq!(out[0].home_url, "https://fbref.com/squads/h1/Home");
    assert_eq!(out[0].away_url, "https://fbref.com/squads/a1/Away");
}

#[test]
fn finished_row_with_separator_and_digits_is_excluded() {
    let finished = fixture_row("2024-05-01", "Alpha", "Beta", "2\u{2013}1");
    let upcoming = fixture_row("2024-05-02", "Gamma", "Delta", "");
    let tables = vec![fixtures_table(vec![finished, upcoming])];
    let out = scrape_fixtures(&tables, LIMIT);
    assert_eq!(out.len(), 1);
    assert_eq!(out[0].home_team, "Gamma");
}

#[test]
fn score_cell_with_time_only_is_not_finished() {
    let tables = vec![fixtures_table(vec![fixture_row("2024-05-01", "Alpha", "Beta", "20:00")])];
    // digits without the separator glyph: still an upcoming fixture
    let out = scrape_fixtures(&tables, LIMIT);
    assert_eq!(out.len(), 1);
}

#[test]
fn scan_stops_at_first_row_past_the_limit() {
    let near = fixture_row("2024-05-01", "Alpha", "Beta", "");
    let far = fixture_row("2031-05-01", "Gamma", "Delta", "");
    let later = fixture_row("2024-05-02", "Epsilon", "Zeta", "");
    let tables = vec![fixtures_table(vec![near, far, later])];
    let out = scrape_fixtures(&tables, LIMIT);
    assert_eq!(out.len(), 1);
    assert_eq!(out[0].home_team, "Alpha");
}

#[test]
fn repeated_header_rows_are_skipped() {
    let mut spacer = fixture_row("2024-05-01", "Alpha", "Beta", "");
    spacer.class = "thead spacer".to_owned();
    let real = fixture_row("2024-05-02", "Gamma", "Delta", "");
    let tables = vec![fixtures_table(vec![spacer, real])];
    let out = scrape_fixtures(&tables, LIMIT);
    assert_eq!(out.len(), 1);
    assert_eq!(out[0].home_team, "Gamma");
}

#[test]
fn fixture_without_any_report_link_gets_a_synthetic_url() {
    let r = row(vec![
        cell_link("date", "2024-05-01", Some("/dates/x")),
        cell_link("home_team", "Alpha", None),
        cell_link("away_team", "Beta", None),
        cell("score", ""),
    ]);
    let tables = vec![fixtures_table(vec![r])];
    let out = scrape_fixtures(&tables, LIMIT);
    assert_eq!(out.len(), 1);
    assert_eq!(out[0].url, "fixture://2024-05-01/Alpha/Beta");
    assert_eq!(out[0].venue, "Unknown Venue");
    assert_eq!(out[0].home_url, "");
}

#[test]
fn roster_page_yields_one_team_source() {
    let table = DomTable {
        id: "results".to_owned(),
        classes: vec!["stats_table".to_owned()],
        headers: vec!["Rk".to_owned(), "Squad".to_owned()],
        rows: vec![row(vec![cell_link("squad", "Team A", Some("/squads/abc123/Team-A"))])],
    };
    let teams = get_teams(&vec![table]).unwrap();
    assert_eq!(teams.len(), 1);
    assert_eq!(teams[0].name, "Team A");
    assert_eq!(teams[0].id, "abc123");
    assert_eq!(teams[0].base_url, "https://fbref.com/en/squads/abc123/");
}

#[test]
fn page_without_roster_table_is_refused() {
    let table = DomTable {
        id: "results".to_owned(),
        classes: vec![],
        headers: vec!["Rk".to_owned(), "Points".to_owned()],
        rows: vec![],
    };
    let r = get_teams(&vec![table]);
    assert!(matches!(r, Err(ExtractError::NoSuitableTable)));
}

fn stat_table(id: &str, rows: Vec<DomRow>) -> DomTable {
    DomTable { id: id.to_owned(), classes: vec![], headers: vec![], rows }
}

fn summary_row(name: &str, goals: &str, xg: &str) -> DomRow {
    row(vec![
        header_cell_link("player", name, Some("/players/p1")),
        cell("position", "FW"),
        cell("minutes", "90"),
        cell("goals", goals),
        cell("assists", "0"),
        cell("shots", "4"),
        cell("shots_on_target", "2"),
        cell("xg", xg),
        cell("sca", "3"),
        cell("gca", "1"),
    ])
}

fn passing_row(name: &str, completed: &str) -> DomRow {
    row(vec![
        header_cell_link("player", name, Some("/players/p1")),
        cell("passes_completed", completed),
        cell("progressive_passes", "5"),
        cell("passes_into_final_third", "6"),
        cell("passes_into_penalty_area", "2"),
        cell("passes_key", "3"),
        cell("xg_assist", "0.25"),
    ])
}

fn match_page(tables: Vec<DomTable>) -> DomPage {
    DomPage {
        has_scorebox: true,
        tables,
        meta_rows: vec![
            "Venue: Big Stadium".to_owned(),
            "Attendance: 74,310".to_owned(),
            "John Doe (Referee)".to_owned(),
        ],
        team_names: vec!["Alpha".to_owned(), "Beta".to_owned()],
        scorebox_links: vec![],
    }
}

#[test]
fn categories_merge_into_one_record_per_player() {
    let tables = vec![
        stat_table("stats_h_summary", vec![summary_row("Ann", "2", "1.5")]),
        stat_table("stats_a_summary", vec![summary_row("Bob", "1", "0.8")]),
        stat_table("stats_h_passing", vec![passing_row("Ann", "30")]),
        stat_table("stats_a_passing", vec![passing_row("Bob", "22")]),
    ];
    let out = scrape_match(&match_page(tables)).unwrap();
    assert_eq!(out.home_stats.players.len(), 1);
    assert_eq!(out.away_stats.players.len(), 1);
    let ann = &out.home_stats.players[0];
    assert_eq!(ann.name, "Ann");
    assert_eq!(ann.goals, 2);
    assert_eq!(ann.xg_milli, 1500);
    assert_eq!(ann.xa_milli, 250);
    assert_eq!(ann.position, "FW");
    assert_eq!(ann.minutes, 90);
}

#[test]
fn team_totals_are_sums_and_xga_is_cross_assigned() {
    let tables = vec![
        stat_table(
            "stats_h_summary",
            vec![summary_row("Ann", "2", "1.5"), summary_row("Amy", "0", "0.3")],
        ),
        stat_table("stats_a_summary", vec![summary_row("Bob", "1", "0.8")]),
    ];
    let out = scrape_match(&match_page(tables)).unwrap();
    assert_eq!(out.home_stats.goals, 2);
    assert_eq!(out.home_stats.xg_milli, 1800);
    assert_eq!(out.away_stats.xg_milli, 800);
    assert_eq!(out.home_stats.xga_milli, 800);
    assert_eq!(out.away_stats.xga_milli, 1800);
    assert_eq!(out.home_stats.shots, 8);
    assert_eq!(out.context.venue, "Big Stadium");
    assert_eq!(out.context.attendance, Some(74310));
    assert_eq!(out.context.referee, "John Doe ()");
    assert_eq!(out.home_stats.name, "Alpha");
}

#[test]
fn a_single_category_table_is_not_enough_for_that_category() {
    // only one summary table: the category is skipped, not misassigned
    let tables = vec![stat_table("stats_h_summary", vec![summary_row("Ann", "2", "1.5")])];
    let out = scrape_match(&match_page(tables)).unwrap();
    assert_eq!(out.home_stats.players.len(), 0);
    assert_eq!(out.away_stats.players.len(), 0);
}

#[test]
fn missing_scorebox_is_the_hard_failure() {
    let mut page = match_page(vec![]);
    page.has_scorebox = false;
    assert!(matches!(scrape_match(&page), Err(ExtractError::MissingScorebox)));
}

#[test]
fn match_history_collects_report_links_and_dedups() {
    let log_row = |href: &str| {
        row(vec![cell_link("match_report", "Match Report", Some(href))])
    };
    let season = |hrefs: Vec<&str>| {
        vec![DomTable {
            id: "matchlogs_for_123".to_owned(),
            classes: vec![],
            headers: vec![],
            rows: hrefs.into_iter().map(log_row).collect(),
        }]
    };
    let pages = vec![
        season(vec!["/matches/a", "/matches/b"]),
        season(vec!["/matches/b", "/matches/c"]),
    ];
    let mut urls = get_team_match_history(&pages);
    urls.sort();
    assert_eq!(
        urls,
        vec![
            "https://fbref.com/matches/a".to_owned(),
            "https://fbref.com/matches/b".to_owned(),
            "https://fbref.com/matches/c".to_owned(),
        ]
    );
}

#[test]
fn head_to_head_links_are_not_match_reports() {
    let tables = vec![DomTable {
        id: "matchlogs_for_123".to_owned(),
        classes: vec![],
        headers: vec![],
        rows: vec![row(vec![cell_link("match_report", "Head-to-Head", Some("/matches/x"))])],
    }];
    assert_eq!(extract_match_report_urls(&tables).len(), 0);
}

#[test]
fn team_urls_come_from_the_scorebox_squad_links() {
    let mut page = match_page(vec![]);
    page.scorebox_links = vec![
        DomLink { text: "Alpha".to_owned(), href: Some("/en/squads/h1/Alpha".to_owned()) },
        DomLink { text: "stats".to_owned(), href: Some("/en/players/z".to_owned()) },
        DomLink { text: "Alpha again".to_owned(), href: Some("/en/squads/h1/Alpha".to_owned()) },
        DomLink { text: "Beta".to_owned(), href: Some("/en/squads/a1/Beta".to_owned()) },
    ];
    let (h, a) = get_team_urls_from_match_page(&page).unwrap();
    assert_eq!(h, "https://fbref.com/en/squads/h1/Alpha");
    assert_eq!(a, "https://fbref.com/en/squads/a1/Beta");
}

#[test]
fn fewer_than_two_squad_links_is_an_error() {
    let mut page = match_page(vec![]);
    page.scorebox_links = vec![DomLink {
        text: "Alpha".to_owned(),
        href: Some("/en/squads/h1/Alpha".to_owned()),
    }];
    assert!(matches!(
        get_team_urls_from_match_page(&page),
        Err(ExtractError::TeamLinksNotFound)
    ));
}
