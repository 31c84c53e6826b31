use footstats::db::{
    EventStatus, FootballMatchStats, LegacyMatchRow, MatchContext, PlayerStats, Store, TeamStats,
};

fn player(name: &str, goals: u32, assists: u32) -> PlayerStats {
    PlayerStats {
        name: name.to_owned(),
        position: "FW".to_owned(),
        minutes: 90,
        goals,
        assists,
        shots: 3,
        shots_on_target: 2,
        xg_milli: 450,
        xa_milli: 120,
        sca: 4,
        touches_att_pen: 0,
        progressive_carries: 0,
        tackles: 1,
        interceptions: 0,
        fouls_committed: 2,
        fouls_drawn: 1,
    }
}

fn team(name: &str, goals: u64, xg_milli: u64, players: Vec<PlayerStats>) -> TeamStats {
    TeamStats {
        name: name.to_owned(),
        xg_milli,
        xga_milli: 0,
        possession_milli: 0,
        shots: 10,
        shots_on_target: 5,
        goals,
        sca: 8,
        gca: 2,
        passes_completed: 300,
        passes_progressive: 30,
        passes_final_third: 25,
        key_passes: 7,
        tackles_won: 9,
        interceptions: 6,
        blocks: 3,
        clearances: 11,
        aerials_won: 5,
        aerials_lost: 4,
        saves: 0,
        psxg_milli: 0,
        fouls: 10,
        yellow_cards: 1,
        red_cards: 0,
        corners: 5,
        players,
    }
}

fn sample_match() -> FootballMatchStats {
    FootballMatchStats {
        context: MatchContext {
            referee: "R. Referee".to_owned(),
            venue: "Big Stadium".to_owned(),
            attendance: Some(52000),
        },
        home_stats: team(
            "Alpha FC",
            2,
            1800,
            vec![player("Ann Striker", 2, 0), player("Amy Mid", 0, 2)],
        ),
        away_stats: team("Beta United", 1, 900, vec![player("Bob Wing", 1, 0)]),
    }
}

#[test]
fn save_match_complete_inserts_everything_once() {
    let mut store = Store::new();
    store.save_match_complete(&sample_match(), "2024-03-01", "https://example.org/m/1");
    assert_eq!(store.events.len(), 1);
    assert_eq!(store.football_stats.len(), 1);
    assert_eq!(store.teams.len(), 2);
    assert_eq!(store.players.len(), 3);
    assert_eq!(store.player_match_stats.len(), 3);
    assert!(matches!(store.events[0].status, EventStatus::Finished));
    assert_eq!(store.football_stats[0].home_score, 2);
    assert_eq!(store.football_stats[0].away_score, 1);
    assert_eq!(store.football_stats[0].xg_home_milli, 1800);
    assert_eq!(store.football_stats[0].referee, "R. Referee");
}

#[test]
fn save_match_complete_is_idempotent() {
    let mut store = Store::new();
    store.save_match_complete(&sample_match(), "2024-03-01", "https://example.org/m/1");
    let events_after_one = store.events.len();
    let stats_after_one = store.football_stats.len();
    let facts_after_one: Vec<(usize, usize, usize)> = store
        .player_match_stats
        .iter()
        .map(|r| (r.player, r.event, r.team))
        .collect();
    store.save_match_complete(&sample_match(), "2024-03-01", "https://example.org/m/1");
    assert_eq!(store.events.len(), events_after_one);
    assert_eq!(store.football_stats.len(), stats_after_one);
    let facts_after_two: Vec<(usize, usize, usize)> = store
        .player_match_stats
        .iter()
        .map(|r| (r.player, r.event, r.team))
        .collect();
    assert_eq!(facts_after_one, facts_after_two);
}

#[test]
fn save_match_complete_attaches_to_existing_fixture() {
    let mut store = Store::new();
    store.save_fixture(
        "Alpha FC",
        "Beta United",
        "2024-03-01",
        "https://example.org/m/1",
        "Big Stadium",
        "15:00",
        "https://example.org/t/alpha",
        "https://example.org/t/beta",
    );
    assert!(matches!(store.events[0].status, EventStatus::Scheduled));
    store.save_match_complete(&sample_match(), "2024-03-01", "https://example.org/m/1");
    assert_eq!(store.events.len(), 1);
    assert!(matches!(store.events[0].status, EventStatus::Finished));
    assert_eq!(store.football_stats.len(), 1);
    assert_eq!(store.player_match_stats.len(), 3);
}

#[test]
fn save_fixture_never_downgrades_a_finished_event() {
    let mut store = Store::new();
    store.save_match_complete(&sample_match(), "2024-03-01", "https://example.org/m/1");
    let date_before = store.events[0].date.clone();
    let venue_before = store.events[0].venue.clone();
    store.save_fixture(
        "Alpha FC",
        "Beta United",
        "2030-12-31",
        "https://example.org/m/1",
        "Another Venue",
        "20:00",
        "https://example.org/t/alpha",
        "https://example.org/t/beta",
    );
    assert!(matches!(store.events[0].status, EventStatus::Finished));
    assert_eq!(store.events[0].date, date_before);
    assert_eq!(store.events[0].venue, venue_before);
    assert_eq!(store.events.len(), 1);
}

#[test]
fn save_fixture_refreshes_a_scheduled_event_in_place() {
    let mut store = Store::new();
    store.save_fixture(
        "Alpha FC",
        "Beta United",
        "2024-03-01",
        "https://example.org/m/1",
        "Big Stadium",
        "15:00",
        "https://example.org/t/alpha",
        "https://example.org/t/beta",
    );
    store.save_fixture(
        "Alpha FC",
        "Beta United",
        "2024-03-02",
        "https://example.org/m/1",
        "Moved Stadium",
        "17:30",
        "https://example.org/t/alpha",
        "https://example.org/t/beta",
    );
    assert_eq!(store.events.len(), 1);
    assert_eq!(store.events[0].date, "2024-03-02");
    assert_eq!(store.events[0].venue.as_deref(), Some("Moved Stadium"));
    assert_eq!(store.events[0].time.as_deref(), Some("17:30"));
}

#[test]
fn upsert_team_updates_url_last_write_wins() {
    let mut store = Store::new();
    let a = store.upsert_team("Alpha FC", None);
    assert_eq!(store.teams[a].url, None);
    let b = store.upsert_team("Alpha FC", Some("https://example.org/t/alpha"));
    assert_eq!(a, b);
    assert_eq!(store.teams.len(), 1);
    assert_eq!(store.teams[a].url.as_deref(), Some("https://example.org/t/alpha"));
    let c = store.upsert_team("Alpha FC", Some("https://example.org/t/alpha2"));
    assert_eq!(a, c);
    assert_eq!(store.teams[a].url.as_deref(), Some("https://example.org/t/alpha2"));
}

fn legacy_row(
    url: &str,
    home: usize,
    away: usize,
    score: Option<(u64, u64)>,
) -> LegacyMatchRow {
    LegacyMatchRow {
        date: "2023-05-05".to_owned(),
        time: Some("16:00".to_owned()),
        venue: None,
        url: url.to_owned(),
        home_team: home,
        away_team: away,
        home_score: score.map(|s| s.0),
        away_score: score.map(|s| s.1),
        xg_home_milli: score.map(|_| 1500),
        xg_away_milli: score.map(|_| 700),
        referee: None,
    }
}

#[test]
fn migration_copies_every_legacy_row_exactly_once() {
    let mut store = Store::new();
    store.upsert_team("Alpha FC", None);
    store.upsert_team("Beta United", None);
    let legacy = vec![
        legacy_row("https://example.org/m/1", 0, 1, Some((3, 0))),
        legacy_row("https://example.org/m/2", 1, 0, None),
        legacy_row("https://example.org/m/3", 0, 1, Some((1, 1))),
    ];
    store.migrate_legacy(&legacy);
    assert_eq!(store.events.len(), 3);
    assert_eq!(store.football_stats.len(), 2);
    assert!(matches!(store.events[0].status, EventStatus::Finished));
    assert!(matches!(store.events[1].status, EventStatus::Scheduled));
    assert!(matches!(store.events[2].status, EventStatus::Finished));
    assert_eq!(store.football_stats[0].event, 0);
    assert_eq!(store.football_stats[0].home_score, 3);
    assert_eq!(store.football_stats[1].event, 2);
}

#[test]
fn migration_of_nothing_is_a_no_op() {
    let mut store = Store::new();
    store.migrate_legacy(&Vec::new());
    assert_eq!(store.events.len(), 0);
    assert_eq!(store.football_stats.len(), 0);
}

#[test]
fn one_fact_row_per_player_and_match() {
    let mut store = Store::new();
    store.save_match_complete(&sample_match(), "2024-03-01", "https://example.org/m/1");
    let mut pairs: Vec<(usize, usize)> = store
        .player_match_stats
        .iter()
        .map(|r| (r.player, r.event))
        .collect();
    let total = pairs.len();
    pairs.sort();
    pairs.dedup();
    assert_eq!(pairs.len(), total);
}

#[test]
fn has_completed_event_is_the_dedup_boundary() {
    let mut store = Store::new();
    assert!(!store.has_completed_event("https://example.org/m/1"));
    store.save_fixture(
        "Alpha FC",
        "Beta United",
        "2024-03-01",
        "https://example.org/m/1",
        "Big Stadium",
        "15:00",
        "",
        "",
    );
    assert!(!store.has_completed_event("https://example.org/m/1"));
    store.save_match_complete(&sample_match(), "2024-03-01", "https://example.org/m/1");
    assert!(store.has_completed_event("https://example.org/m/1"));
}
