use footstats::analysis::{
    analyze_match, build_prediction, get_league_averages, get_team_recent_stats,
};
use footstats::dates::{fixture_date_limit, parse_ymd, ymd_after, Ymd};
use footstats::db::{
    FootballMatchStats, MatchContext, PlayerStats, Store, TeamStats,
};
use footstats::errors::{AnalysisError, FetchError};
use footstats::fetch::{
    classify_direct_response, is_challenge_page, politeness_delay_secs, poll_step, solver_outcome,
    DirectOutcome, FlareResponse, FlareSolution, PollDecision,
};
use footstats::text::{
    parse_cell_u32, parse_decimal_milli, str_contains, str_split_char, str_trim,
    strip_comment_markers,
};
use footstats::urls::{absolutize, season_url, synthetic_fixture_url};

fn bare_team(name: &str, goals: u64) -> TeamStats {
    TeamStats {
        name: name.to_owned(),
        xg_milli: 0,
        xga_milli: 0,
        possession_milli: 0,
        shots: 0,
        shots_on_target: 0,
        goals,
        sca: 0,
        gca: 0,
        passes_completed: 0,
        passes_progressive: 0,
        passes_final_third: 0,
        key_passes: 0,
        tackles_won: 0,
        interceptions: 0,
        blocks: 0,
        clearances: 0,
        aerials_won: 0,
        aerials_lost: 0,
        saves: 0,
        psxg_milli: 0,
        fouls: 0,
        yellow_cards: 0,
        red_cards: 0,
        corners: 0,
        players: vec![],
    }
}

fn finished(store: &mut Store, home: &str, away: &str, hg: u64, ag: u64, url: &str, date: &str) {
    let stats = FootballMatchStats {
        context: MatchContext {
            referee: String::new(),
            venue: String::new(),
            attendance: None,
        },
        home_stats: bare_team(home, hg),
        away_stats: bare_team(away, ag),
    };
    store.save_match_complete(&stats, date, url);
}

#[test]
fn league_averages_fall_back_to_priors_on_an_empty_store() {
    let store = Store::new();
    let (h, a) = get_league_averages(&store);
    assert_eq!((h.num, h.den), (15, 10));
    assert_eq!((a.num, a.den), (12, 10));
}

#[test]
fn league_averages_are_exact_sums_over_counts() {
    let mut store = Store::new();
    finished(&mut store, "A", "B", 3, 1, "u1", "2024-01-01");
    finished(&mut store, "B", "A", 0, 2, "u2", "2024-01-08");
    let (h, a) = get_league_averages(&store);
    assert_eq!((h.num, h.den), (3, 2));
    assert_eq!((a.num, a.den), (3, 2));
}

#[test]
fn zero_history_fails_with_insufficient_history() {
    let mut store = Store::new();
    store.upsert_team("Lonely FC", None);
    store.upsert_team("Other FC", None);
    let r = get_team_recent_stats(&store, 0, 20);
    assert!(matches!(r, Err(AnalysisError::InsufficientHistory)));
    let p = analyze_match(&store, 0, 1);
    assert!(matches!(p, Err(AnalysisError::InsufficientHistory)));
}

#[test]
fn one_sided_history_still_fails_the_prediction() {
    let mut store = Store::new();
    finished(&mut store, "A", "B", 2, 0, "u1", "2024-01-01");
    // a third team with no finished match at all
    let lonely = store.upsert_team("C", None);
    let a = store.find_team("A").unwrap();
    assert!(matches!(
        analyze_match(&store, a, lonely),
        Err(AnalysisError::InsufficientHistory)
    ));
}

#[test]
fn recent_form_averages_the_stored_results() {
    let mut store = Store::new();
    finished(&mut store, "A", "B", 3, 1, "u1", "2024-01-01");
    finished(&mut store, "B", "A", 2, 2, "u2", "2024-01-08");
    let a = store.find_team("A").unwrap();
    let (scored, conceded) = get_team_recent_stats(&store, a, 20).unwrap();
    // A scored 3 then 2 (as the away side), conceded 1 then 2
    assert_eq!((scored.num, scored.den), (5, 2));
    assert_eq!((conceded.num, conceded.den), (3, 2));
}

#[test]
fn recent_form_keeps_only_the_newest_matches() {
    let mut store = Store::new();
    finished(&mut store, "A", "B", 9, 0, "u-old", "2020-01-01");
    for i in 0..20 {
        let url = format!("u{}", i);
        let date = format!("2024-01-{:02}", i + 1);
        finished(&mut store, "A", "B", 1, 0, &url, &date);
    }
    let a = store.find_team("A").unwrap();
    let (scored, _) = get_team_recent_stats(&store, a, 20).unwrap();
    // the 9-goal match of 2020 falls outside the 20-match window
    assert_eq!((scored.num, scored.den), (20, 20));
}

#[test]
fn projected_rates_follow_the_strength_formula() {
    let mut store = Store::new();
    finished(&mut store, "A", "B", 2, 1, "u1", "2024-01-01");
    let a = store.find_team("A").unwrap();
    let b = store.find_team("B").unwrap();
    let p = analyze_match(&store, a, b).unwrap();
    // league averages 2/1 and 1/1; A scored 2/1, conceded 1/1; B scored 1/1,
    // conceded 2/1. xgH = (2/1)*(2/1)/(2/1) = 4/2; xgA = (1/1)*(1/1)/(1/1).
    assert_eq!(p.xg_home.num * 2, p.xg_home.den * 4);
    assert_eq!(p.xg_away.num, p.xg_away.den);
}

#[test]
fn grid_probabilities_renormalize_to_exactly_one() {
    // a flat grid: every scoreline equally likely
    let cells = vec![1u64; 100];
    let p = build_prediction(
        footstats::analysis::Ratio { num: 1, den: 1 },
        footstats::analysis::Ratio { num: 1, den: 1 },
        &cells,
    );
    assert_eq!(p.win + p.draw + p.lose, p.total);
    assert_eq!(p.total, 100);
    assert_eq!(p.win, 45);
    assert_eq!(p.draw, 10);
    assert_eq!(p.lose, 45);
    assert_eq!(p.over_2_5, 94);
    assert_eq!(p.btts, 81);
}

#[test]
fn asymmetric_grid_masses_land_in_the_right_buckets() {
    let mut cells = vec![0u64; 100];
    cells[10] = 7; // 1:0 home win
    cells[1] = 2; // 0:1 home loss
    cells[22] = 5; // 2:2 draw, over 2.5, both score
    let p = build_prediction(
        footstats::analysis::Ratio { num: 1, den: 1 },
        footstats::analysis::Ratio { num: 1, den: 1 },
        &cells,
    );
    assert_eq!(p.win, 7);
    assert_eq!(p.lose, 2);
    assert_eq!(p.draw, 5);
    assert_eq!(p.total, 14);
    assert_eq!(p.over_2_5, 5);
    assert_eq!(p.btts, 5);
    assert_eq!(p.win + p.draw + p.lose, p.total);
}

#[test]
fn lenient_integer_cells() {
    assert_eq!(parse_cell_u32("1,234"), 1234);
    assert_eq!(parse_cell_u32(" 42 "), 42);
    assert_eq!(parse_cell_u32(""), 0);
    assert_eq!(parse_cell_u32("n/a"), 0);
    assert_eq!(parse_cell_u32("12x"), 0);
}

#[test]
fn lenient_decimal_cells_in_thousandths() {
    assert_eq!(parse_decimal_milli("0.5"), 500);
    assert_eq!(parse_decimal_milli("2"), 2000);
    assert_eq!(parse_decimal_milli("1.25"), 1250);
    assert_eq!(parse_decimal_milli(".4"), 400);
    assert_eq!(parse_decimal_milli("3."), 3000);
    assert_eq!(parse_decimal_milli("0.1239"), 123);
    assert_eq!(parse_decimal_milli(""), 0);
    assert_eq!(parse_decimal_milli("-1"), 0);
    assert_eq!(parse_decimal_milli("."), 0);
}

#[test]
fn iso_dates_parse_and_order() {
    assert_eq!(
        parse_ymd("2024-02-29"),
        Some(Ymd { year: 2024, month: 2, day: 29 })
    );
    assert_eq!(parse_ymd("2023-02-29"), None);
    assert_eq!(parse_ymd("2023-13-01"), None);
    assert_eq!(parse_ymd("2023-1-01"), None);
    assert!(ymd_after(
        Ymd { year: 2024, month: 1, day: 2 },
        Ymd { year: 2024, month: 1, day: 1 }
    ));
    assert!(!ymd_after(
        Ymd { year: 2024, month: 1, day: 1 },
        Ymd { year: 2024, month: 1, day: 1 }
    ));
}

#[test]
fn text_helpers_behave() {
    assert_eq!(str_trim("  a b \n"), "a b");
    assert!(str_contains("Just a moment...", "moment"));
    assert_eq!(strip_comment_markers("a<!--b-->c"), "abc");
    assert_eq!(strip_comment_markers("<!-<!--->"), "<!-->");
    assert_eq!(
        str_split_char("/en/squads/abc/Team", '/'),
        vec!["", "en", "squads", "abc", "Team"]
    );
}

#[test]
fn url_shapes() {
    assert_eq!(absolutize("/matches/x"), "https://fbref.com/matches/x");
    assert_eq!(absolutize("https://other.example/x"), "https://other.example/x");
    assert_eq!(
        synthetic_fixture_url("2024-05-01", "Alpha", "Beta"),
        "fixture://2024-05-01/Alpha/Beta"
    );
    assert_eq!(
        season_url("https://fbref.com/en/squads/abc", "2024-2025"),
        "https://fbref.com/en/squads/abc/2024-2025/matchlogs/all_comps/schedule/"
    );
    assert_eq!(
        season_url("https://fbref.com/en/squads/abc/", "2024-2025"),
        "https://fbref.com/en/squads/abc/2024-2025/matchlogs/all_comps/schedule/"
    );
}

#[test]
fn direct_fetch_decision() {
    assert!(is_challenge_page("<html>Just a moment...</html>"));
    assert!(!is_challenge_page("<html>match data</html>"));
    match classify_direct_response(200, "<html>ok</html>".to_owned()) {
        DirectOutcome::UseBody(b) => assert_eq!(b, "<html>ok</html>"),
        DirectOutcome::EngageSolver => panic!("a clean 200 must be used directly"),
    }
    assert!(matches!(
        classify_direct_response(403, "blocked".to_owned()),
        DirectOutcome::EngageSolver
    ));
    assert!(matches!(
        classify_direct_response(200, "Enable JavaScript".to_owned()),
        DirectOutcome::EngageSolver
    ));
}

#[test]
fn solver_envelope_decision() {
    let ok = FlareResponse {
        status: "ok".to_owned(),
        message: String::new(),
        solution: Some(FlareSolution {
            url: "u".to_owned(),
            status: 200,
            response: "<html>doc</html>".to_owned(),
        }),
        start_timestamp: 0,
    };
    assert_eq!(solver_outcome(ok).unwrap(), "<html>doc</html>");
    let bad = FlareResponse {
        status: "error".to_owned(),
        message: "no luck".to_owned(),
        solution: None,
        start_timestamp: 0,
    };
    match solver_outcome(bad) {
        Err(FetchError::FetchFailed(m)) => {
            assert_eq!(m, "unblocking service reported status=error, message=no luck")
        },
        _ => panic!("a failed envelope must fail"),
    }
}

#[test]
fn poll_decisions_respect_the_attempt_budget() {
    assert_eq!(poll_step(true, 1), PollDecision::Ready);
    assert_eq!(poll_step(false, 1), PollDecision::WaitAndRetry);
    assert_eq!(poll_step(false, 14), PollDecision::WaitAndRetry);
    assert_eq!(poll_step(false, 15), PollDecision::GiveUp);
}

#[test]
fn politeness_delay_stays_in_its_window() {
    for _ in 0..50 {
        let d = politeness_delay_secs(2, 5);
        assert!((2..=5).contains(&d));
    }
}

#[test]
fn fixture_limit_is_a_plausible_date() {
    let d = fixture_date_limit();
    assert!((1..=12).contains(&d.month));
    assert!((1..=31).contains(&d.day));
    assert!(d.year >= 2024);
}
