//! The relational store and its transactional operations.
//!
//! The store is modelled as plain in-memory tables; row identifiers are the
//! row's position in its table (rows are never deleted, so positions are
//! stable). Real-valued statistics (expected goals and the like) are carried
//! in thousandths, as integers. Every operation is specified by a transition
//! function over the store's abstract view, so that laws such as idempotence
//! of a completed-match save can be stated and proved about the transitions
//! themselves.

use vstd::prelude::*;

verus! {

// ---------------------------------------------------------------------------
// Scraped-data records (the values handed over by the extraction layer)
// ---------------------------------------------------------------------------

/// Header metadata of one match page.
pub struct MatchContext {
    pub referee: String,
    pub venue: String,
    pub attendance: Option<u32>,
}

/// One player's line in one match; expected goals/assists in thousandths.
pub struct PlayerStats {
    pub name: String,
    pub position: String,
    pub minutes: u32,
    pub goals: u32,
    pub assists: u32,
    pub shots: u32,
    pub shots_on_target: u32,
    pub xg_milli: u64,
    pub xa_milli: u64,
    pub sca: u32,
    pub touches_att_pen: u32,
    pub progressive_carries: u32,
    pub tackles: u32,
    pub interceptions: u32,
    pub fouls_committed: u32,
    pub fouls_drawn: u32,
}

/// One side's totals for one match, folded from its players.
pub struct TeamStats {
    pub name: String,
    pub xg_milli: u64,
    pub xga_milli: u64,
    pub possession_milli: u64,
    pub shots: u64,
    pub shots_on_target: u64,
    pub goals: u64,
    pub sca: u64,
    pub gca: u64,
    pub passes_completed: u64,
    pub passes_progressive: u64,
    pub passes_final_third: u64,
    pub key_passes: u64,
    pub tackles_won: u64,
    pub interceptions: u64,
    pub blocks: u64,
    pub clearances: u64,
    pub aerials_won: u64,
    pub aerials_lost: u64,
    pub saves: u64,
    pub psxg_milli: u64,
    pub fouls: u64,
    pub yellow_cards: u64,
    pub red_cards: u64,
    pub corners: u64,
    pub players: Vec<PlayerStats>,
}

/// The full statistics record of one completed match.
pub struct FootballMatchStats {
    pub context: MatchContext,
    pub home_stats: TeamStats,
    pub away_stats: TeamStats,
}

// ---------------------------------------------------------------------------
// Store rows
// ---------------------------------------------------------------------------

/// Lifecycle of an event: a fixture is scheduled, a played match is finished.
#[derive(Clone, Copy, PartialEq, Eq, Structural, Debug)]
pub enum EventStatus {
    Scheduled,
    Finished,
}

pub struct TeamRow {
    pub name: String,
    pub url: Option<String>,
}

pub struct EventRow {
    pub date: String,
    pub time: Option<String>,
    pub venue: Option<String>,
    pub url: String,
    pub status: EventStatus,
    pub home_team: usize,
    pub away_team: usize,
}

pub struct FootballStatsRow {
    pub event: usize,
    pub home_score: u64,
    pub away_score: u64,
    pub xg_home_milli: u64,
    pub xg_away_milli: u64,
    pub referee: String,
}

pub struct PlayerRow {
    pub name: String,
}

pub struct PlayerMatchStatRow {
    pub player: usize,
    pub event: usize,
    pub team: usize,
    pub position: String,
    pub minutes: u32,
    pub goals: u32,
    pub assists: u32,
    pub shots: u32,
    pub shots_on_target: u32,
    pub xg_milli: u64,
    pub xa_milli: u64,
    pub sca: u32,
    pub tackles: u32,
    pub interceptions: u32,
    pub fouls_committed: u32,
    pub fouls_drawn: u32,
}

/// One legacy row of the old single-table schema (schedule and result
/// columns combined); score and expected-goals columns are null for a
/// fixture that was never played.
pub struct LegacyMatchRow {
    pub date: String,
    pub time: Option<String>,
    pub venue: Option<String>,
    pub url: String,
    pub home_team: usize,
    pub away_team: usize,
    pub home_score: Option<u64>,
    pub away_score: Option<u64>,
    pub xg_home_milli: Option<u64>,
    pub xg_away_milli: Option<u64>,
    pub referee: Option<String>,
}

/// The relational store for the one seeded sport.
pub struct Store {
    pub teams: Vec<TeamRow>,
    pub events: Vec<EventRow>,
    pub football_stats: Vec<FootballStatsRow>,
    pub players: Vec<PlayerRow>,
    pub player_match_stats: Vec<PlayerMatchStatRow>,
}

// ---------------------------------------------------------------------------
// Abstract views
// ---------------------------------------------------------------------------

#[verifier::ext_equal]
pub ghost struct MatchContextV {
    pub referee: Seq<char>,
    pub venue: Seq<char>,
    pub attendance: Option<u32>,
}

#[verifier::ext_equal]
pub ghost struct PlayerStatsV {
    pub name: Seq<char>,
    pub position: Seq<char>,
    pub minutes: u32,
    pub goals: u32,
    pub assists: u32,
    pub shots: u32,
    pub shots_on_target: u32,
    pub xg_milli: u64,
    pub xa_milli: u64,
    pub sca: u32,
    pub touches_att_pen: u32,
    pub progressive_carries: u32,
    pub tackles: u32,
    pub interceptions: u32,
    pub fouls_committed: u32,
    pub fouls_drawn: u32,
}

#[verifier::ext_equal]
pub ghost struct TeamStatsV {
    pub name: Seq<char>,
    pub xg_milli: u64,
    pub xga_milli: u64,
    pub possession_milli: u64,
    pub shots: u64,
    pub shots_on_target: u64,
    pub goals: u64,
    pub sca: u64,
    pub gca: u64,
    pub passes_completed: u64,
    pub passes_progressive: u64,
    pub passes_final_third: u64,
    pub key_passes: u64,
    pub tackles_won: u64,
    pub interceptions: u64,
    pub blocks: u64,
    pub clearances: u64,
    pub aerials_won: u64,
    pub aerials_lost: u64,
    pub saves: u64,
    pub psxg_milli: u64,
    pub fouls: u64,
    pub yellow_cards: u64,
    pub red_cards: u64,
    pub corners: u64,
    pub players: Seq<PlayerStatsV>,
}

#[verifier::ext_equal]
pub ghost struct FootballMatchStatsV {
    pub context: MatchContextV,
    pub home_stats: TeamStatsV,
    pub away_stats: TeamStatsV,
}

#[verifier::ext_equal]
pub ghost struct TeamV {
    pub name: Seq<char>,
    pub url: Option<Seq<char>>,
}

#[verifier::ext_equal]
pub ghost struct EventV {
    pub date: Seq<char>,
    pub time: Option<Seq<char>>,
    pub venue: Option<Seq<char>>,
    pub url: Seq<char>,
    pub status: EventStatus,
    pub home_team: int,
    pub away_team: int,
}

#[verifier::ext_equal]
pub ghost struct FootballStatsV {
    pub event: int,
    pub home_score: u64,
    pub away_score: u64,
    pub xg_home_milli: u64,
    pub xg_away_milli: u64,
    pub referee: Seq<char>,
}

#[verifier::ext_equal]
pub ghost struct PlayerV {
    pub name: Seq<char>,
}

#[verifier::ext_equal]
pub ghost struct PmsV {
    pub player: int,
    pub event: int,
    pub team: int,
    pub position: Seq<char>,
    pub minutes: u32,
    pub goals: u32,
    pub assists: u32,
    pub shots: u32,
    pub shots_on_target: u32,
    pub xg_milli: u64,
    pub xa_milli: u64,
    pub sca: u32,
    pub tackles: u32,
    pub interceptions: u32,
    pub fouls_committed: u32,
    pub fouls_drawn: u32,
}

#[verifier::ext_equal]
pub ghost struct LegacyV {
    pub date: Seq<char>,
    pub time: Option<Seq<char>>,
    pub venue: Option<Seq<char>>,
    pub url: Seq<char>,
    pub home_team: int,
    pub away_team: int,
    pub home_score: Option<u64>,
    pub away_score: Option<u64>,
    pub xg_home_milli: Option<u64>,
    pub xg_away_milli: Option<u64>,
    pub referee: Option<Seq<char>>,
}

#[verifier::ext_equal]
pub ghost struct StoreV {
    pub teams: Seq<TeamV>,
    pub events: Seq<EventV>,
    pub football_stats: Seq<FootballStatsV>,
    pub players: Seq<PlayerV>,
    pub player_match_stats: Seq<PmsV>,
}

impl DeepView for MatchContext {
    type V = MatchContextV;

    open spec fn deep_view(&self) -> MatchContextV {
        MatchContextV {
            referee: self.referee@,
            venue: self.venue@,
            attendance: self.attendance,
        }
    }
}

impl DeepView for PlayerStats {
    type V = PlayerStatsV;

    open spec fn deep_view(&self) -> PlayerStatsV {
        PlayerStatsV {
            name: self.name@,
            position: self.position@,
            minutes: self.minutes,
            goals: self.goals,
            assists: self.assists,
            shots: self.shots,
            shots_on_target: self.shots_on_target,
            xg_milli: self.xg_milli,
            xa_milli: self.xa_milli,
            sca: self.sca,
            touches_att_pen: self.touches_att_pen,
            progressive_carries: self.progressive_carries,
            tackles: self.tackles,
            interceptions: self.interceptions,
            fouls_committed: self.fouls_committed,
            fouls_drawn: self.fouls_drawn,
        }
    }
}

impl DeepView for TeamStats {
    type V = TeamStatsV;

    open spec fn deep_view(&self) -> TeamStatsV {
        TeamStatsV {
            name: self.name@,
            xg_milli: self.xg_milli,
            xga_milli: self.xga_milli,
            possession_milli: self.possession_milli,
            shots: self.shots,
            shots_on_target: self.shots_on_target,
            goals: self.goals,
            sca: self.sca,
            gca: self.gca,
            passes_completed: self.passes_completed,
            passes_progressive: self.passes_progressive,
            passes_final_third: self.passes_final_third,
            key_passes: self.key_passes,
            tackles_won: self.tackles_won,
            interceptions: self.interceptions,
            blocks: self.blocks,
            clearances: self.clearances,
            aerials_won: self.aerials_won,
            aerials_lost: self.aerials_lost,
            saves: self.saves,
            psxg_milli: self.psxg_milli,
            fouls: self.fouls,
            yellow_cards: self.yellow_cards,
            red_cards: self.red_cards,
            corners: self.corners,
            players: self.players.deep_view(),
        }
    }
}

impl DeepView for FootballMatchStats {
    type V = FootballMatchStatsV;

    open spec fn deep_view(&self) -> FootballMatchStatsV {
        FootballMatchStatsV {
            context: self.context.deep_view(),
            home_stats: self.home_stats.deep_view(),
            away_stats: self.away_stats.deep_view(),
        }
    }
}

impl DeepView for TeamRow {
    type V = TeamV;

    open spec fn deep_view(&self) -> TeamV {
        TeamV { name: self.name@, url: self.url.deep_view() }
    }
}

impl DeepView for EventRow {
    type V = EventV;

    open spec fn deep_view(&self) -> EventV {
        EventV {
            date: self.date@,
            time: self.time.deep_view(),
            venue: self.venue.deep_view(),
            url: self.url@,
            status: self.status,
            home_team: self.home_team as int,
            away_team: self.away_team as int,
        }
    }
}

impl DeepView for FootballStatsRow {
    type V = FootballStatsV;

    open spec fn deep_view(&self) -> FootballStatsV {
        FootballStatsV {
            event: self.event as int,
            home_score: self.home_score,
            away_score: self.away_score,
            xg_home_milli: self.xg_home_milli,
            xg_away_milli: self.xg_away_milli,
            referee: self.referee@,
        }
    }
}

impl DeepView for PlayerRow {
    type V = PlayerV;

    open spec fn deep_view(&self) -> PlayerV {
        PlayerV { name: self.name@ }
    }
}

impl DeepView for PlayerMatchStatRow {
    type V = PmsV;

    open spec fn deep_view(&self) -> PmsV {
        PmsV {
            player: self.player as int,
            event: self.event as int,
            team: self.team as int,
            position: self.position@,
            minutes: self.minutes,
            goals: self.goals,
            assists: self.assists,
            shots: self.shots,
            shots_on_target: self.shots_on_target,
            xg_milli: self.xg_milli,
            xa_milli: self.xa_milli,
            sca: self.sca,
            tackles: self.tackles,
            interceptions: self.interceptions,
            fouls_committed: self.fouls_committed,
            fouls_drawn: self.fouls_drawn,
        }
    }
}

impl DeepView for LegacyMatchRow {
    type V = LegacyV;

    open spec fn deep_view(&self) -> LegacyV {
        LegacyV {
            date: self.date@,
            time: self.time.deep_view(),
            venue: self.venue.deep_view(),
            url: self.url@,
            home_team: self.home_team as int,
            away_team: self.away_team as int,
            home_score: self.home_score,
            away_score: self.away_score,
            xg_home_milli: self.xg_home_milli,
            xg_away_milli: self.xg_away_milli,
            referee: self.referee.deep_view(),
        }
    }
}

impl View for Store {
    type V = StoreV;

    open spec fn view(&self) -> StoreV {
        StoreV {
            teams: self.teams.deep_view(),
            events: self.events.deep_view(),
            football_stats: self.football_stats.deep_view(),
            players: self.players.deep_view(),
            player_match_stats: self.player_match_stats.deep_view(),
        }
    }
}

// ---------------------------------------------------------------------------
// Well-formedness
// ---------------------------------------------------------------------------

/// A statistics row for event `e` exists.
pub open spec fn has_stats_for(s: StoreV, e: int) -> bool {
    exists|k: int| 0 <= k < s.football_stats.len() && s.football_stats[k].event == e
}

/// Some team carries this display name.
pub open spec fn has_team(s: StoreV, name: Seq<char>) -> bool {
    exists|i: int| 0 <= i < s.teams.len() && s.teams[i].name == name
}

/// The row index of the team with this name (meaningful under `wf_v`,
/// where names are unique).
pub open spec fn team_index(s: StoreV, name: Seq<char>) -> int {
    choose|i: int| 0 <= i < s.teams.len() && s.teams[i].name == name
}

/// Some event carries this source URL.
pub open spec fn has_event(s: StoreV, url: Seq<char>) -> bool {
    exists|e: int| 0 <= e < s.events.len() && s.events[e].url == url
}

/// The row index of the event with this URL (meaningful under `wf_v`).
pub open spec fn event_index(s: StoreV, url: Seq<char>) -> int {
    choose|e: int| 0 <= e < s.events.len() && s.events[e].url == url
}

/// Some player carries this display name.
pub open spec fn has_player(s: StoreV, name: Seq<char>) -> bool {
    exists|i: int| 0 <= i < s.players.len() && s.players[i].name == name
}

/// The row index of the player with this name (meaningful under `wf_v`).
pub open spec fn player_index(s: StoreV, name: Seq<char>) -> int {
    choose|i: int| 0 <= i < s.players.len() && s.players[i].name == name
}

/// The store's integrity invariant: unique natural keys, referential
/// integrity, and agreement between an event's lifecycle status and the
/// presence of its statistics row.
pub open spec fn wf_v(s: StoreV) -> bool {
    &&& forall|i: int, j: int|
        0 <= i < j < s.teams.len() ==> s.teams[i].name != s.teams[j].name
    &&& forall|i: int, j: int|
        0 <= i < j < s.events.len() ==> s.events[i].url != s.events[j].url
    &&& forall|i: int, j: int|
        0 <= i < j < s.players.len() ==> s.players[i].name != s.players[j].name
    &&& forall|i: int, j: int|
        0 <= i < j < s.football_stats.len()
            ==> s.football_stats[i].event != s.football_stats[j].event
    &&& forall|e: int|
        0 <= e < s.events.len()
            ==> 0 <= #[trigger] s.events[e].home_team < s.teams.len()
                && 0 <= s.events[e].away_team < s.teams.len()
    &&& forall|k: int|
        0 <= k < s.football_stats.len()
            ==> 0 <= #[trigger] s.football_stats[k].event < s.events.len()
    &&& forall|k: int|
        0 <= k < s.player_match_stats.len()
            ==> 0 <= #[trigger] s.player_match_stats[k].player < s.players.len()
                && 0 <= s.player_match_stats[k].event < s.events.len()
                && 0 <= s.player_match_stats[k].team < s.teams.len()
    &&& forall|e: int|
        0 <= e < s.events.len()
            ==> ((#[trigger] s.events[e].status == EventStatus::Finished) <==> has_stats_for(
                s,
                e,
            ))
}

// ---------------------------------------------------------------------------
// Transition functions
// ---------------------------------------------------------------------------

/// Find-or-insert of a team by name; a supplied URL is written whether the
/// team is new or existing (last write wins on the URL only).
pub open spec fn spec_upsert_team(s: StoreV, name: Seq<char>, url: Option<Seq<char>>) -> (StoreV,
    int) {
    if has_team(s, name) {
        let i = team_index(s, name);
        match url {
            Some(u) => (
                StoreV { teams: s.teams.update(i, TeamV { name: s.teams[i].name, url: Some(u) }), ..s },
                i,
            ),
            None => (s, i),
        }
    } else {
        (StoreV { teams: s.teams.push(TeamV { name, url }), ..s }, s.teams.len() as int)
    }
}

/// Find-or-insert of a player by globally unique name.
pub open spec fn spec_get_or_insert_player(s: StoreV, name: Seq<char>) -> (StoreV, int) {
    if has_player(s, name) {
        (s, player_index(s, name))
    } else {
        (StoreV { players: s.players.push(PlayerV { name }), ..s }, s.players.len() as int)
    }
}

/// A team upsert only rewrites the named team's URL or appends a new team;
/// every other table and every other team row is untouched, and the store
/// stays well-formed.
pub proof fn lemma_upsert_team_wf(s: StoreV, name: Seq<char>, url: Option<Seq<char>>)
    requires
        wf_v(s),
    ensures
        wf_v(spec_upsert_team(s, name, url).0),
        spec_upsert_team(s, name, url).0.events == s.events,
        spec_upsert_team(s, name, url).0.football_stats == s.football_stats,
        spec_upsert_team(s, name, url).0.players == s.players,
        spec_upsert_team(s, name, url).0.player_match_stats == s.player_match_stats,
        s.teams.len() <= spec_upsert_team(s, name, url).0.teams.len(),
        forall|i: int|
            0 <= i < s.teams.len()
                ==> #[trigger] spec_upsert_team(s, name, url).0.teams[i].name == s.teams[i].name,
        has_team(spec_upsert_team(s, name, url).0, name),
        0 <= spec_upsert_team(s, name, url).1 < spec_upsert_team(s, name, url).0.teams.len(),
        spec_upsert_team(s, name, url).0.teams[spec_upsert_team(s, name, url).1].name == name,
        !has_team(s, name) ==> spec_upsert_team(s, name, url).0.teams == s.teams.push(
            TeamV { name, url },
        ),
        url is None ==> spec_upsert_team(s, name, url).0.teams.len() == s.teams.len() || (
        spec_upsert_team(s, name, url).0.teams.len() == s.teams.len() + 1),
{
    let (s2, i) = spec_upsert_team(s, name, url);
    if has_team(s, name) {
        assert(0 <= team_index(s, name) < s.teams.len() && s.teams[team_index(s, name)].name
            == name);
        assert(forall|j: int|
            0 <= j < s2.teams.len() ==> #[trigger] s2.teams[j].name == s.teams[j].name);
        assert(wf_v(s2));
    } else {
        assert(forall|j: int| 0 <= j < s.teams.len() ==> #[trigger] s2.teams[j] == s.teams[j]);
        assert(s2.teams[s.teams.len() as int].name == name);
        assert(wf_v(s2));
    }
}

/// A player find-or-insert leaves every other table untouched and keeps the
/// store well-formed.
pub proof fn lemma_get_or_insert_player_wf(s: StoreV, name: Seq<char>)
    requires
        wf_v(s),
    ensures
        wf_v(spec_get_or_insert_player(s, name).0),
        spec_get_or_insert_player(s, name).0.teams == s.teams,
        spec_get_or_insert_player(s, name).0.events == s.events,
        spec_get_or_insert_player(s, name).0.football_stats == s.football_stats,
        spec_get_or_insert_player(s, name).0.player_match_stats == s.player_match_stats,
        has_player(s, name) ==> spec_get_or_insert_player(s, name).0 == s,
        0 <= spec_get_or_insert_player(s, name).1 < spec_get_or_insert_player(s, name).0.players.len(),
{
    let (s2, i) = spec_get_or_insert_player(s, name);
    if has_player(s, name) {
        assert(0 <= player_index(s, name) < s.players.len());
    } else {
        assert(forall|j: int| 0 <= j < s.players.len() ==> #[trigger] s2.players[j] == s.players[j]);
        assert(wf_v(s2));
    }
}

impl Store {
    /// The row index of the team with this display name, if any.
    pub fn find_team(&self, name: &str) -> (r: Option<usize>)
        ensures
            match r {
                Some(i) => i < self@.teams.len() && self@.teams[i as int].name == name@,
                None => !has_team(self@, name@),
            },
    {
        let n = self.teams.len();
        let mut i: usize = 0;
        while i < n
            invariant
                n == self@.teams.len(),
                i <= n,
                forall|k: int| 0 <= k < i ==> #[trigger] self@.teams[k].name != name@,
            decreases n - i,
        {
            if crate::text::str_eq(self.teams[i].name.as_str(), name) {
                return Some(i);
            }
            i = i + 1;
        }
        None
    }

    /// The row index of the event with this source URL, if any.
    pub fn find_event(&self, url: &str) -> (r: Option<usize>)
        ensures
            match r {
                Some(e) => e < self@.events.len() && self@.events[e as int].url == url@,
                None => !has_event(self@, url@),
            },
    {
        let n = self.events.len();
        let mut e: usize = 0;
        while e < n
            invariant
                n == self@.events.len(),
                e <= n,
                forall|k: int| 0 <= k < e ==> #[trigger] self@.events[k].url != url@,
            decreases n - e,
        {
            if crate::text::str_eq(self.events[e].url.as_str(), url) {
                return Some(e);
            }
            e = e + 1;
        }
        None
    }

    /// The row index of the player with this display name, if any.
    fn find_player(&self, name: &str) -> (r: Option<usize>)
        ensures
            match r {
                Some(i) => i < self@.players.len() && self@.players[i as int].name == name@,
                None => !has_player(self@, name@),
            },
    {
        let n = self.players.len();
        let mut i: usize = 0;
        while i < n
            invariant
                n == self@.players.len(),
                i <= n,
                forall|k: int| 0 <= k < i ==> #[trigger] self@.players[k].name != name@,
            decreases n - i,
        {
            if crate::text::str_eq(self.players[i].name.as_str(), name) {
                return Some(i);
            }
            i = i + 1;
        }
        None
    }

    /// Whether a statistics row is attached to event `e`.
    pub fn has_stats_row(&self, e: usize) -> (r: bool)
        ensures
            r == has_stats_for(self@, e as int),
    {
        let n = self.football_stats.len();
        let mut k: usize = 0;
        while k < n
            invariant
                n == self@.football_stats.len(),
                k <= n,
                forall|j: int| 0 <= j < k ==> #[trigger] self@.football_stats[j].event != e as int,
            decreases n - k,
        {
            if self.football_stats[k].event == e {
                assert(self@.football_stats[k as int].event == e as int);
                return true;
            }
            k = k + 1;
        }
        false
    }

    /// An event with this URL exists and already has its statistics row:
    /// the deduplication boundary for the history crawl.
    pub fn has_completed_event(&self, url: &str) -> (r: bool)
        requires
            wf_v(self@),
        ensures
            r == (has_event(self@, url@) && has_stats_for(self@, event_index(self@, url@))),
    {
        match self.find_event(url) {
            Some(e) => {
                proof {
                    assert(has_event(self@, url@));
                    assert(self@.events[event_index(self@, url@)].url == url@);
                    assert(event_index(self@, url@) == e as int);
                }
                self.has_stats_row(e)
            },
            None => false,
        }
    }

    /// Find-by-name-or-insert of a team; a supplied URL is written in either
    /// case (the upsert of the repository contract).
    pub fn upsert_team(&mut self, name: &str, url: Option<&str>) -> (idx: usize)
        requires
            wf_v(old(self)@),
            old(self).teams.len() < usize::MAX,
        ensures
            final(self)@ == spec_upsert_team(old(self)@, name@, url.deep_view()).0,
            idx as int == spec_upsert_team(old(self)@, name@, url.deep_view()).1,
            wf_v(final(self)@),
    {
        proof {
            lemma_upsert_team_wf(old(self)@, name@, url.deep_view());
        }
        match self.find_team(name) {
            Some(i) => {
                proof {
                    assert(team_index(self@, name@) == i as int);
                }
                if let Some(u) = url {
                    let row = TeamRow {
                        name: self.teams[i].name.clone(),
                        url: Some(u.to_owned()),
                    };
                    self.teams[i] = row;
                    assert(self@ =~= spec_upsert_team(old(self)@, name@, url.deep_view()).0);
                }
                i
            },
            None => {
                let idx = self.teams.len();
                let row = TeamRow {
                    name: name.to_owned(),
                    url: match url {
                        Some(u) => Some(u.to_owned()),
                        None => None,
                    },
                };
                self.teams.push(row);
                assert(self@ =~= spec_upsert_team(old(self)@, name@, url.deep_view()).0);
                idx
            },
        }
    }

    /// Find-by-name-or-insert of a player.
    fn get_or_insert_player(&mut self, name: &str) -> (idx: usize)
        requires
            wf_v(old(self)@),
            old(self).players.len() < usize::MAX,
        ensures
            final(self)@ == spec_get_or_insert_player(old(self)@, name@).0,
            idx as int == spec_get_or_insert_player(old(self)@, name@).1,
            wf_v(final(self)@),
    {
        proof {
            lemma_get_or_insert_player_wf(old(self)@, name@);
        }
        match self.find_player(name) {
            Some(i) => {
                proof {
                    assert(player_index(self@, name@) == i as int);
                }
                i
            },
            None => {
                let idx = self.players.len();
                self.players.push(PlayerRow { name: name.to_owned() });
                assert(self@ =~= spec_get_or_insert_player(old(self)@, name@).0);
                idx
            },
        }
    }
}

/// Transition of a fixture save: both teams are resolved (their URLs
/// written), then the event keyed by `url` is inserted as SCHEDULED, or has
/// its date, venue and time refreshed in place — unless it is already
/// FINISHED, in which case it is left untouched.
pub open spec fn spec_save_fixture(
    s: StoreV,
    home: Seq<char>,
    away: Seq<char>,
    date: Seq<char>,
    url: Seq<char>,
    venue: Seq<char>,
    time: Seq<char>,
    home_url: Seq<char>,
    away_url: Seq<char>,
) -> StoreV {
    let (s1, hi) = spec_upsert_team(s, home, Some(home_url));
    let (s2, ai) = spec_upsert_team(s1, away, Some(away_url));
    if has_event(s2, url) {
        let e = event_index(s2, url);
        if s2.events[e].status == EventStatus::Finished {
            s2
        } else {
            StoreV {
                events: s2.events.update(
                    e,
                    EventV { date, venue: Some(venue), time: Some(time), ..s2.events[e] },
                ),
                ..s2
            }
        }
    } else {
        StoreV {
            events: s2.events.push(
                EventV {
                    date,
                    time: Some(time),
                    venue: Some(venue),
                    url,
                    status: EventStatus::Scheduled,
                    home_team: hi,
                    away_team: ai,
                },
            ),
            ..s2
        }
    }
}

/// Two stores with the same statistics table agree on which events have a
/// statistics row.
pub proof fn lemma_has_stats_same(a: StoreV, b: StoreV, e: int)
    requires
        a.football_stats == b.football_stats,
    ensures
        has_stats_for(a, e) == has_stats_for(b, e),
{
    if has_stats_for(a, e) {
        let k = choose|k: int| 0 <= k < a.football_stats.len() && a.football_stats[k].event == e;
        assert(b.football_stats[k].event == e);
    }
    if has_stats_for(b, e) {
        let k = choose|k: int| 0 <= k < b.football_stats.len() && b.football_stats[k].event == e;
        assert(a.football_stats[k].event == e);
    }
}

/// A fixture save keeps the store well-formed, and a FINISHED event is never
/// touched by it: fixture data cannot downgrade a completed match.
pub proof fn lemma_save_fixture_wf(
    s: StoreV,
    home: Seq<char>,
    away: Seq<char>,
    date: Seq<char>,
    url: Seq<char>,
    venue: Seq<char>,
    time: Seq<char>,
    home_url: Seq<char>,
    away_url: Seq<char>,
)
    requires
        wf_v(s),
    ensures
        wf_v(spec_save_fixture(s, home, away, date, url, venue, time, home_url, away_url)),
        spec_save_fixture(s, home, away, date, url, venue, time, home_url, away_url).football_stats
            == s.football_stats,
        spec_save_fixture(s, home, away, date, url, venue, time, home_url, away_url).players
            == s.players,
        spec_save_fixture(
            s,
            home,
            away,
            date,
            url,
            venue,
            time,
            home_url,
            away_url,
        ).player_match_stats == s.player_match_stats,
        forall|e: int|
            0 <= e < s.events.len() && s.events[e].status == EventStatus::Finished
                ==> #[trigger] spec_save_fixture(
                s,
                home,
                away,
                date,
                url,
                venue,
                time,
                home_url,
                away_url,
            ).events[e] == s.events[e],
{
    let s1 = spec_upsert_team(s, home, Some(home_url)).0;
    let hi = spec_upsert_team(s, home, Some(home_url)).1;
    lemma_upsert_team_wf(s, home, Some(home_url));
    let s2 = spec_upsert_team(s1, away, Some(away_url)).0;
    let ai = spec_upsert_team(s1, away, Some(away_url)).1;
    lemma_upsert_team_wf(s1, away, Some(away_url));
    let r = spec_save_fixture(s, home, away, date, url, venue, time, home_url, away_url);
    assert(s2.events == s.events);
    if has_event(s2, url) {
        let e = event_index(s2, url);
        assert(0 <= e < s2.events.len() && s2.events[e].url == url);
        if s2.events[e].status == EventStatus::Finished {
        } else {
            assert(forall|k: int|
                0 <= k < r.events.len() ==> #[trigger] r.events[k].url == s2.events[k].url);
            assert(forall|k: int|
                0 <= k < r.events.len() ==> #[trigger] r.events[k].status == s2.events[k].status
                    && r.events[k].home_team == s2.events[k].home_team && r.events[k].away_team
                    == s2.events[k].away_team);
            assert forall|k: int| has_stats_for(r, k) == has_stats_for(s2, k) by {
                lemma_has_stats_same(r, s2, k);
            }
            assert forall|k: int|
                0 <= k < r.events.len() implies ((#[trigger] r.events[k].status
                == EventStatus::Finished) <==> has_stats_for(r, k)) by {
                assert(r.events[k].status == s2.events[k].status);
                assert(has_stats_for(r, k) == has_stats_for(s2, k));
            }
            assert(wf_v(r));
        }
    } else {
        let e = s2.events.len() as int;
        assert(forall|k: int|
            0 <= k < s2.events.len() ==> #[trigger] r.events[k] == s2.events[k]);
        assert(!has_stats_for(s2, e));
        assert forall|k: int| has_stats_for(r, k) == has_stats_for(s2, k) by {
            lemma_has_stats_same(r, s2, k);
        }
        assert(r.events[e].status != EventStatus::Finished && !has_stats_for(r, e));
        assert(wf_v(r));
    }
}

/// One player's fact row is appended, resolving (or creating) the player by
/// unique name.
pub open spec fn spec_add_player_row(s: StoreV, e: int, t: int, p: PlayerStatsV) -> StoreV {
    let s1 = spec_get_or_insert_player(s, p.name).0;
    let pi = spec_get_or_insert_player(s, p.name).1;
    StoreV {
        player_match_stats: s1.player_match_stats.push(
            PmsV {
                player: pi,
                event: e,
                team: t,
                position: p.position,
                minutes: p.minutes,
                goals: p.goals,
                assists: p.assists,
                shots: p.shots,
                shots_on_target: p.shots_on_target,
                xg_milli: p.xg_milli,
                xa_milli: p.xa_milli,
                sca: p.sca,
                tackles: p.tackles,
                interceptions: p.interceptions,
                fouls_committed: p.fouls_committed,
                fouls_drawn: p.fouls_drawn,
            },
        ),
        ..s1
    }
}

/// All fact rows of one side are appended, in roster order.
pub open spec fn spec_save_team_players(
    s: StoreV,
    e: int,
    t: int,
    players: Seq<PlayerStatsV>,
) -> StoreV
    decreases players.len(),
{
    if players.len() == 0 {
        s
    } else {
        spec_add_player_row(
            spec_save_team_players(s, e, t, players.drop_last()),
            e,
            t,
            players.last(),
        )
    }
}

/// Appending one side's fact rows touches only the player and fact tables
/// and keeps the store well-formed.
pub proof fn lemma_save_team_players_wf(s: StoreV, e: int, t: int, players: Seq<PlayerStatsV>)
    requires
        wf_v(s),
        0 <= e < s.events.len(),
        0 <= t < s.teams.len(),
    ensures
        wf_v(spec_save_team_players(s, e, t, players)),
        spec_save_team_players(s, e, t, players).teams == s.teams,
        spec_save_team_players(s, e, t, players).events == s.events,
        spec_save_team_players(s, e, t, players).football_stats == s.football_stats,
        s.players.len() <= spec_save_team_players(s, e, t, players).players.len() <= s.players.len()
            + players.len(),
        spec_save_team_players(s, e, t, players).player_match_stats.len()
            == s.player_match_stats.len() + players.len(),
        forall|i: int|
            0 <= i < s.players.len() ==> #[trigger] spec_save_team_players(
                s,
                e,
                t,
                players,
            ).players[i] == s.players[i],
        forall|k: int|
            0 <= k < s.player_match_stats.len() ==> #[trigger] spec_save_team_players(
                s,
                e,
                t,
                players,
            ).player_match_stats[k] == s.player_match_stats[k],
    decreases players.len(),
{
    if players.len() == 0 {
    } else {
        lemma_save_team_players_wf(s, e, t, players.drop_last());
        let s1 = spec_save_team_players(s, e, t, players.drop_last());
        lemma_get_or_insert_player_wf(s1, players.last().name);
        let s2 = spec_get_or_insert_player(s1, players.last().name).0;
        let pi = spec_get_or_insert_player(s1, players.last().name).1;
        let r = spec_save_team_players(s, e, t, players);
        assert(r == spec_add_player_row(s1, e, t, players.last()));
        assert forall|k: int| has_stats_for(r, k) == has_stats_for(s2, k) by {
            lemma_has_stats_same(r, s2, k);
        }
        assert forall|k: int| has_stats_for(s2, k) == has_stats_for(s1, k) by {
            lemma_has_stats_same(s2, s1, k);
        }
        assert(wf_v(r));
    }
}

/// The statistics-attachment step on an already stored event: the event is
/// marked FINISHED with refreshed date, venue and sides, and its statistics
/// row is appended.
pub open spec fn spec_complete_existing(
    s2: StoreV,
    e: int,
    hi: int,
    ai: int,
    stats: FootballMatchStatsV,
    date: Seq<char>,
) -> StoreV {
    let s3 = StoreV {
        events: s2.events.update(
            e,
            EventV {
                date,
                venue: Some(stats.context.venue),
                status: EventStatus::Finished,
                home_team: hi,
                away_team: ai,
                ..s2.events[e]
            },
        ),
        ..s2
    };
    StoreV {
        football_stats: s3.football_stats.push(
            FootballStatsV {
                event: e,
                home_score: stats.home_stats.goals,
                away_score: stats.away_stats.goals,
                xg_home_milli: stats.home_stats.xg_milli,
                xg_away_milli: stats.away_stats.xg_milli,
                referee: stats.context.referee,
            },
        ),
        ..s3
    }
}

/// The insertion step for a match never seen before: a new FINISHED event
/// and its statistics row.
pub open spec fn spec_insert_finished(
    s2: StoreV,
    hi: int,
    ai: int,
    stats: FootballMatchStatsV,
    date: Seq<char>,
    url: Seq<char>,
) -> StoreV {
    let e = s2.events.len() as int;
    let s3 = StoreV {
        events: s2.events.push(
            EventV {
                date,
                time: None,
                venue: Some(stats.context.venue),
                url,
                status: EventStatus::Finished,
                home_team: hi,
                away_team: ai,
            },
        ),
        ..s2
    };
    StoreV {
        football_stats: s3.football_stats.push(
            FootballStatsV {
                event: e,
                home_score: stats.home_stats.goals,
                away_score: stats.away_stats.goals,
                xg_home_milli: stats.home_stats.xg_milli,
                xg_away_milli: stats.away_stats.xg_milli,
                referee: stats.context.referee,
            },
        ),
        ..s3
    }
}

/// Transition of a completed-match save: teams are resolved, then either the
/// whole record is inserted, or — when the event exists without a statistics
/// row yet — attached to it; an event that already has its statistics row is
/// left entirely untouched, so re-processing a scraped match is a no-op.
pub open spec fn spec_save_match_complete(
    s: StoreV,
    stats: FootballMatchStatsV,
    date: Seq<char>,
    url: Seq<char>,
) -> StoreV {
    let s1 = spec_upsert_team(s, stats.home_stats.name, None).0;
    let hi = spec_upsert_team(s, stats.home_stats.name, None).1;
    let s2 = spec_upsert_team(s1, stats.away_stats.name, None).0;
    let ai = spec_upsert_team(s1, stats.away_stats.name, None).1;
    if has_event(s2, url) {
        let e = event_index(s2, url);
        if has_stats_for(s2, e) {
            s2
        } else {
            let s4 = spec_complete_existing(s2, e, hi, ai, stats, date);
            let s5 = spec_save_team_players(s4, e, hi, stats.home_stats.players);
            spec_save_team_players(s5, e, ai, stats.away_stats.players)
        }
    } else {
        let e = s2.events.len() as int;
        let s4 = spec_insert_finished(s2, hi, ai, stats, date, url);
        let s5 = spec_save_team_players(s4, e, hi, stats.home_stats.players);
        spec_save_team_players(s5, e, ai, stats.away_stats.players)
    }
}

/// The statistics-attachment step preserves well-formedness and keeps the
/// event's URL in place.
pub proof fn lemma_complete_existing_wf(
    s2: StoreV,
    e: int,
    hi: int,
    ai: int,
    stats: FootballMatchStatsV,
    date: Seq<char>,
)
    requires
        wf_v(s2),
        0 <= e < s2.events.len(),
        !has_stats_for(s2, e),
        0 <= hi < s2.teams.len(),
        0 <= ai < s2.teams.len(),
    ensures
        wf_v(spec_complete_existing(s2, e, hi, ai, stats, date)),
        spec_complete_existing(s2, e, hi, ai, stats, date).teams == s2.teams,
        spec_complete_existing(s2, e, hi, ai, stats, date).players == s2.players,
        spec_complete_existing(s2, e, hi, ai, stats, date).events.len() == s2.events.len(),
        spec_complete_existing(s2, e, hi, ai, stats, date).events[e].url == s2.events[e].url,
        forall|k: int|
            0 <= k < s2.events.len() && k != e ==> #[trigger] spec_complete_existing(
                s2,
                e,
                hi,
                ai,
                stats,
                date,
            ).events[k] == s2.events[k],
        has_stats_for(spec_complete_existing(s2, e, hi, ai, stats, date), e),
{
    let r = spec_complete_existing(s2, e, hi, ai, stats, date);
    assert(r.football_stats[s2.football_stats.len() as int].event == e);
    assert forall|k: int| has_stats_for(r, k) implies (k == e || has_stats_for(s2, k)) by {
        if has_stats_for(r, k) {
            let j = choose|j: int|
                0 <= j < r.football_stats.len() && r.football_stats[j].event == k;
            if j < s2.football_stats.len() {
                assert(s2.football_stats[j].event == k);
            }
        }
    }
    assert forall|k: int| has_stats_for(s2, k) implies has_stats_for(r, k) by {
        if has_stats_for(s2, k) {
            let j = choose|j: int|
                0 <= j < s2.football_stats.len() && s2.football_stats[j].event == k;
            assert(r.football_stats[j].event == k);
        }
    }
    assert(wf_v(r));
}

/// The fresh-insertion step preserves well-formedness and registers the URL.
pub proof fn lemma_insert_finished_wf(
    s2: StoreV,
    hi: int,
    ai: int,
    stats: FootballMatchStatsV,
    date: Seq<char>,
    url: Seq<char>,
)
    requires
        wf_v(s2),
        !has_event(s2, url),
        0 <= hi < s2.teams.len(),
        0 <= ai < s2.teams.len(),
    ensures
        wf_v(spec_insert_finished(s2, hi, ai, stats, date, url)),
        spec_insert_finished(s2, hi, ai, stats, date, url).teams == s2.teams,
        spec_insert_finished(s2, hi, ai, stats, date, url).players == s2.players,
        spec_insert_finished(s2, hi, ai, stats, date, url).events.len() == s2.events.len() + 1,
        spec_insert_finished(s2, hi, ai, stats, date, url).events[s2.events.len() as int].url
            == url,
        has_stats_for(spec_insert_finished(s2, hi, ai, stats, date, url), s2.events.len() as int),
{
    let r = spec_insert_finished(s2, hi, ai, stats, date, url);
    let e = s2.events.len() as int;
    assert(r.football_stats[s2.football_stats.len() as int].event == e);
    assert forall|k: int| has_stats_for(r, k) implies (k == e || has_stats_for(s2, k)) by {
        if has_stats_for(r, k) {
            let j = choose|j: int|
                0 <= j < r.football_stats.len() && r.football_stats[j].event == k;
            if j < s2.football_stats.len() {
                assert(s2.football_stats[j].event == k);
            }
        }
    }
    assert forall|k: int| has_stats_for(s2, k) implies has_stats_for(r, k) by {
        if has_stats_for(s2, k) {
            let j = choose|j: int|
                0 <= j < s2.football_stats.len() && s2.football_stats[j].event == k;
            assert(r.football_stats[j].event == k);
        }
    }
    assert forall|k: int|
        0 <= k < s2.football_stats.len() implies !(#[trigger] s2.football_stats[k].event
        == e) by {}
    assert(!has_stats_for(s2, e));
    assert(wf_v(r));
}

/// A completed-match save keeps the store well-formed; afterwards both sides
/// exist as teams and the event keyed by the URL exists with its statistics
/// row attached.
pub proof fn lemma_save_match_complete_wf(
    s: StoreV,
    stats: FootballMatchStatsV,
    date: Seq<char>,
    url: Seq<char>,
)
    requires
        wf_v(s),
    ensures
        wf_v(spec_save_match_complete(s, stats, date, url)),
        has_team(spec_save_match_complete(s, stats, date, url), stats.home_stats.name),
        has_team(spec_save_match_complete(s, stats, date, url), stats.away_stats.name),
        has_event(spec_save_match_complete(s, stats, date, url), url),
        has_stats_for(
            spec_save_match_complete(s, stats, date, url),
            event_index(spec_save_match_complete(s, stats, date, url), url),
        ),
{
    let r = spec_save_match_complete(s, stats, date, url);
    lemma_upsert_team_wf(s, stats.home_stats.name, None);
    let s1 = spec_upsert_team(s, stats.home_stats.name, None).0;
    let hi = spec_upsert_team(s, stats.home_stats.name, None).1;
    lemma_upsert_team_wf(s1, stats.away_stats.name, None);
    let s2 = spec_upsert_team(s1, stats.away_stats.name, None).0;
    let ai = spec_upsert_team(s1, stats.away_stats.name, None).1;
    assert(has_team(s2, stats.home_stats.name)) by {
        let i = choose|i: int|
            0 <= i < s1.teams.len() && s1.teams[i].name == stats.home_stats.name;
        assert(s2.teams[i].name == stats.home_stats.name);
    }
    assert(has_team(s2, stats.away_stats.name));
    if has_event(s2, url) {
        let e = event_index(s2, url);
        assert(0 <= e < s2.events.len() && s2.events[e].url == url);
        if has_stats_for(s2, e) {
            assert(event_index(r, url) == e);
        } else {
            lemma_complete_existing_wf(s2, e, hi, ai, stats, date);
            let s4 = spec_complete_existing(s2, e, hi, ai, stats, date);
            lemma_save_team_players_wf(s4, e, hi, stats.home_stats.players);
            let s5 = spec_save_team_players(s4, e, hi, stats.home_stats.players);
            lemma_save_team_players_wf(s5, e, ai, stats.away_stats.players);
            assert(r.events[e].url == url);
            assert(has_event(r, url));
            assert(event_index(r, url) == e);
            assert forall|k: int| has_stats_for(r, k) == has_stats_for(s4, k) by {
                lemma_has_stats_same(r, s4, k);
            }
        }
    } else {
        let e = s2.events.len() as int;
        lemma_insert_finished_wf(s2, hi, ai, stats, date, url);
        let s4 = spec_insert_finished(s2, hi, ai, stats, date, url);
        lemma_save_team_players_wf(s4, e, hi, stats.home_stats.players);
        let s5 = spec_save_team_players(s4, e, hi, stats.home_stats.players);
        lemma_save_team_players_wf(s5, e, ai, stats.away_stats.players);
        assert(r.events[e].url == url);
        assert(has_event(r, url));
        assert(event_index(r, url) == e);
        assert forall|k: int| has_stats_for(r, k) == has_stats_for(s4, k) by {
            lemma_has_stats_same(r, s4, k);
        }
    }
}

/// Idempotence of the completed-match save: replaying the same record leaves
/// the store exactly as one save left it — one event row, one statistics
/// row, one set of fact rows.
pub proof fn lemma_save_match_complete_idempotent(
    s: StoreV,
    stats: FootballMatchStatsV,
    date: Seq<char>,
    url: Seq<char>,
)
    requires
        wf_v(s),
    ensures
        spec_save_match_complete(spec_save_match_complete(s, stats, date, url), stats, date, url)
            == spec_save_match_complete(s, stats, date, url),
{
    let r = spec_save_match_complete(s, stats, date, url);
    lemma_save_match_complete_wf(s, stats, date, url);
    let e = event_index(r, url);
    assert(spec_upsert_team(r, stats.home_stats.name, None).0 == r);
    let r1 = spec_upsert_team(r, stats.home_stats.name, None).0;
    assert(spec_upsert_team(r1, stats.away_stats.name, None).0 == r);
    assert(has_event(r, url));
    assert(has_stats_for(r, e));
}

impl Store {
    /// Saves one upcoming fixture: resolves both teams (writing their
    /// profile URLs), then inserts or refreshes the event keyed by its URL.
    /// A FINISHED event is never overwritten by fixture data.
    pub fn save_fixture(
        &mut self,
        home_team: &str,
        away_team: &str,
        date: &str,
        url: &str,
        venue: &str,
        time: &str,
        home_url: &str,
        away_url: &str,
    )
        requires
            wf_v(old(self)@),
            old(self).teams.len() + 2 <= usize::MAX,
            old(self).events.len() < usize::MAX,
        ensures
            final(self)@ == spec_save_fixture(
                old(self)@,
                home_team@,
                away_team@,
                date@,
                url@,
                venue@,
                time@,
                home_url@,
                away_url@,
            ),
            wf_v(final(self)@),
            forall|e: int|
                0 <= e < old(self)@.events.len() && old(self)@.events[e].status
                    == EventStatus::Finished ==> #[trigger] final(self)@.events[e] == old(
                    self,
                )@.events[e],
    {
        proof {
            lemma_save_fixture_wf(
                old(self)@,
                home_team@,
                away_team@,
                date@,
                url@,
                venue@,
                time@,
                home_url@,
                away_url@,
            );
            lemma_upsert_team_wf(old(self)@, home_team@, Some(home_url@));
        }
        let ghost s1 = spec_upsert_team(old(self)@, home_team@, Some(home_url@)).0;
        let hi = self.upsert_team(home_team, Some(home_url));
        proof {
            lemma_upsert_team_wf(s1, away_team@, Some(away_url@));
        }
        let ai = self.upsert_team(away_team, Some(away_url));
        let ghost s2 = self@;
        match self.find_event(url) {
            Some(e) => {
                proof {
                    assert(event_index(s2, url@) == e as int);
                }
                if self.events[e].status == EventStatus::Finished {
                    assert(self@ =~= spec_save_fixture(
                        old(self)@,
                        home_team@,
                        away_team@,
                        date@,
                        url@,
                        venue@,
                        time@,
                        home_url@,
                        away_url@,
                    ));
                } else {
                    let row = EventRow {
                        date: date.to_owned(),
                        time: Some(time.to_owned()),
                        venue: Some(venue.to_owned()),
                        url: self.events[e].url.clone(),
                        status: self.events[e].status,
                        home_team: self.events[e].home_team,
                        away_team: self.events[e].away_team,
                    };
                    self.events[e] = row;
                    assert(self@ =~= spec_save_fixture(
                        old(self)@,
                        home_team@,
                        away_team@,
                        date@,
                        url@,
                        venue@,
                        time@,
                        home_url@,
                        away_url@,
                    ));
                }
            },
            None => {
                let row = EventRow {
                    date: date.to_owned(),
                    time: Some(time.to_owned()),
                    venue: Some(venue.to_owned()),
                    url: url.to_owned(),
                    status: EventStatus::Scheduled,
                    home_team: hi,
                    away_team: ai,
                };
                self.events.push(row);
                assert(self@ =~= spec_save_fixture(
                    old(self)@,
                    home_team@,
                    away_team@,
                    date@,
                    url@,
                    venue@,
                    time@,
                    home_url@,
                    away_url@,
                ));
            },
        }
    }
}

/// With pairwise distinct player names on one side, the appended fact rows
/// pair each player with the event at most once: the k-th appended row
/// belongs to the k-th player, and no two appended rows share a player.
pub proof fn lemma_save_team_players_distinct(
    s: StoreV,
    e: int,
    t: int,
    players: Seq<PlayerStatsV>,
)
    requires
        wf_v(s),
        0 <= e < s.events.len(),
        0 <= t < s.teams.len(),
        forall|i: int, j: int| 0 <= i < j < players.len() ==> players[i].name != players[j].name,
    ensures
        forall|k: int|
            0 <= k < players.len() ==> {
                let row = #[trigger] spec_save_team_players(
                    s,
                    e,
                    t,
                    players,
                ).player_match_stats[s.player_match_stats.len() + k];
                &&& row.event == e
                &&& row.team == t
                &&& 0 <= row.player < spec_save_team_players(s, e, t, players).players.len()
                &&& spec_save_team_players(s, e, t, players).players[row.player].name
                    == players[k].name
            },
        forall|k1: int, k2: int|
            0 <= k1 < k2 < players.len() ==> #[trigger] spec_save_team_players(
                s,
                e,
                t,
                players,
            ).player_match_stats[s.player_match_stats.len() + k1].player
                != #[trigger] spec_save_team_players(
                s,
                e,
                t,
                players,
            ).player_match_stats[s.player_match_stats.len() + k2].player,
    decreases players.len(),
{
    lemma_save_team_players_wf(s, e, t, players);
    if players.len() == 0 {
    } else {
        lemma_save_team_players_distinct(s, e, t, players.drop_last());
        lemma_save_team_players_wf(s, e, t, players.drop_last());
        let s1 = spec_save_team_players(s, e, t, players.drop_last());
        lemma_get_or_insert_player_wf(s1, players.last().name);
        let s2 = spec_get_or_insert_player(s1, players.last().name).0;
        let pi = spec_get_or_insert_player(s1, players.last().name).1;
        let r = spec_save_team_players(s, e, t, players);
        assert(r == spec_add_player_row(s1, e, t, players.last()));
        assert(s2.players[pi].name == players.last().name);
        assert(forall|i: int| 0 <= i < s1.players.len() ==> #[trigger] s2.players[i] == s1.players[i]);
        let off = s.player_match_stats.len() as int;
        assert(r.player_match_stats[off + players.len() - 1].player == pi);
        assert forall|k: int| 0 <= k < players.len() implies {
            let row = #[trigger] r.player_match_stats[off + k];
            &&& row.event == e
            &&& row.team == t
            &&& 0 <= row.player < r.players.len()
            &&& r.players[row.player].name == players[k].name
        } by {
            if k < players.len() - 1 {
                let row = spec_save_team_players(
                    s,
                    e,
                    t,
                    players.drop_last(),
                ).player_match_stats[off + k];
                assert(r.player_match_stats[off + k] == row);
                assert(s1.players[row.player].name == players.drop_last()[k].name);
                assert(players.drop_last()[k] == players[k]);
            } else {
                assert(r.player_match_stats[off + k].player == pi);
            }
        }
        assert forall|k1: int, k2: int| 0 <= k1 < k2 < players.len() implies #[trigger] r.player_match_stats[off
            + k1].player != #[trigger] r.player_match_stats[off + k2].player by {
            let p1 = r.player_match_stats[off + k1].player;
            let p2 = r.player_match_stats[off + k2].player;
            assert(r.players[p1].name == players[k1].name);
            assert(r.players[p2].name == players[k2].name);
            assert(players[k1].name != players[k2].name);
        }
    }
}

/// The value of an optional numeric legacy column, with null as zero.
pub open spec fn u64_or_zero(o: Option<u64>) -> u64 {
    match o {
        Some(v) => v,
        None => 0,
    }
}

/// The value of an optional legacy text column, with null as empty.
pub open spec fn seq_or_empty(o: Option<Seq<char>>) -> Seq<char> {
    match o {
        Some(v) => v,
        None => Seq::empty(),
    }
}

/// Migration of one legacy row: an event row is appended (FINISHED exactly
/// when the legacy row carries a home score), and for a finished row the
/// result columns move into a statistics row.
pub open spec fn spec_migrate_row(s: StoreV, r: LegacyV) -> StoreV {
    let finished = r.home_score is Some;
    let e = s.events.len() as int;
    let s2 = StoreV {
        events: s.events.push(
            EventV {
                date: r.date,
                time: r.time,
                venue: r.venue,
                url: r.url,
                status: if finished {
                    EventStatus::Finished
                } else {
                    EventStatus::Scheduled
                },
                home_team: r.home_team,
                away_team: r.away_team,
            },
        ),
        ..s
    };
    if finished {
        StoreV {
            football_stats: s2.football_stats.push(
                FootballStatsV {
                    event: e,
                    home_score: u64_or_zero(r.home_score),
                    away_score: u64_or_zero(r.away_score),
                    xg_home_milli: u64_or_zero(r.xg_home_milli),
                    xg_away_milli: u64_or_zero(r.xg_away_milli),
                    referee: seq_or_empty(r.referee),
                },
            ),
            ..s2
        }
    } else {
        s2
    }
}

/// Migration of a whole legacy table, row by row in table order.
pub open spec fn spec_migrate(s: StoreV, rows: Seq<LegacyV>) -> StoreV
    decreases rows.len(),
{
    if rows.len() == 0 {
        s
    } else {
        spec_migrate_row(spec_migrate(s, rows.drop_last()), rows.last())
    }
}

/// How many legacy rows carry a result.
pub open spec fn count_scored(rows: Seq<LegacyV>) -> int
    decreases rows.len(),
{
    if rows.len() == 0 {
        0int
    } else {
        count_scored(rows.drop_last()) + if rows.last().home_score is Some {
            1int
        } else {
            0int
        }
    }
}

/// One migration step preserves well-formedness when the row's URL is new
/// and its team references are valid.
pub proof fn lemma_migrate_row_wf(s: StoreV, r: LegacyV)
    requires
        wf_v(s),
        !has_event(s, r.url),
        0 <= r.home_team < s.teams.len(),
        0 <= r.away_team < s.teams.len(),
    ensures
        wf_v(spec_migrate_row(s, r)),
        spec_migrate_row(s, r).teams == s.teams,
        spec_migrate_row(s, r).players == s.players,
        spec_migrate_row(s, r).player_match_stats == s.player_match_stats,
        spec_migrate_row(s, r).events.len() == s.events.len() + 1,
        spec_migrate_row(s, r).events[s.events.len() as int].url == r.url,
        forall|k: int|
            0 <= k < s.events.len() ==> #[trigger] spec_migrate_row(s, r).events[k] == s.events[k],
        spec_migrate_row(s, r).football_stats.len() == s.football_stats.len() + if r.home_score
            is Some {
            1int
        } else {
            0int
        },
{
    let out = spec_migrate_row(s, r);
    let e = s.events.len() as int;
    if r.home_score is Some {
        assert(out.football_stats[s.football_stats.len() as int].event == e);
        assert forall|k: int| has_stats_for(out, k) implies (k == e || has_stats_for(s, k)) by {
            if has_stats_for(out, k) {
                let j = choose|j: int|
                    0 <= j < out.football_stats.len() && out.football_stats[j].event == k;
                if j < s.football_stats.len() {
                    assert(s.football_stats[j].event == k);
                }
            }
        }
        assert forall|k: int| has_stats_for(s, k) implies has_stats_for(out, k) by {
            if has_stats_for(s, k) {
                let j = choose|j: int|
                    0 <= j < s.football_stats.len() && s.football_stats[j].event == k;
                assert(out.football_stats[j].event == k);
            }
        }
        assert(!has_stats_for(s, e));
        assert(wf_v(out));
    } else {
        assert forall|k: int| has_stats_for(out, k) == has_stats_for(s, k) by {
            lemma_has_stats_same(out, s, k);
        }
        assert(!has_stats_for(out, e));
        assert(wf_v(out));
    }
}

impl Store {
    /// Copies a detected legacy single-table schema into the event/statistics
    /// split: one event per legacy row (FINISHED exactly when a score is
    /// present), one statistics row per scored legacy row. Renaming the
    /// legacy table itself is the storage layer's part of the migration.
    pub fn migrate_legacy(&mut self, rows: &Vec<LegacyMatchRow>)
        requires
            wf_v(old(self)@),
            old(self)@.events.len() == 0,
            old(self)@.football_stats.len() == 0,
            forall|i: int, j: int|
                0 <= i < j < rows@.len() ==> rows.deep_view()[i].url != rows.deep_view()[j].url,
            forall|i: int|
                0 <= i < rows@.len() ==> 0 <= #[trigger] rows.deep_view()[i].home_team < old(
                    self,
                )@.teams.len() && 0 <= rows.deep_view()[i].away_team < old(self)@.teams.len(),
        ensures
            final(self)@ == spec_migrate(old(self)@, rows.deep_view()),
            wf_v(final(self)@),
            final(self)@.events.len() == rows@.len(),
            final(self)@.football_stats.len() == count_scored(rows.deep_view()),
            final(self)@.teams == old(self)@.teams,
            final(self)@.players == old(self)@.players,
            final(self)@.player_match_stats == old(self)@.player_match_stats,
    {
        let n = rows.len();
        let mut i: usize = 0;
        proof {
            assert(rows.deep_view().take(0) =~= Seq::<LegacyV>::empty());
        }
        while i < n
            invariant
                wf_v(old(self)@),
                n == rows@.len(),
                i <= n,
                forall|a: int, b: int|
                    0 <= a < b < rows@.len() ==> rows.deep_view()[a].url != rows.deep_view()[b].url,
                forall|a: int|
                    0 <= a < rows@.len() ==> 0 <= #[trigger] rows.deep_view()[a].home_team < old(
                        self,
                    )@.teams.len() && 0 <= rows.deep_view()[a].away_team < old(self)@.teams.len(),
                self@ == spec_migrate(old(self)@, rows.deep_view().take(i as int)),
                wf_v(self@),
                self@.teams == old(self)@.teams,
                self@.players == old(self)@.players,
                self@.player_match_stats == old(self)@.player_match_stats,
                self@.events.len() == i,
                self@.football_stats.len() == count_scored(rows.deep_view().take(i as int)),
                forall|k: int|
                    0 <= k < i ==> #[trigger] self@.events[k].url == rows.deep_view()[k].url,
            decreases n - i,
        {
            let ghost prev = self@;
            let ghost rv = rows.deep_view()[i as int];
            proof {
                assert forall|k: int| 0 <= k < prev.events.len() implies #[trigger] prev.events[k].url
                    != rv.url by {
                    assert(prev.events[k].url == rows.deep_view()[k].url);
                }
                assert(!has_event(prev, rv.url));
                lemma_migrate_row_wf(prev, rv);
            }
            let finished = rows[i].home_score.is_some();
            let row = EventRow {
                date: rows[i].date.clone(),
                time: match &rows[i].time {
                    Some(t) => Some(t.clone()),
                    None => None,
                },
                venue: match &rows[i].venue {
                    Some(v) => Some(v.clone()),
                    None => None,
                },
                url: rows[i].url.clone(),
                status: if finished {
                    EventStatus::Finished
                } else {
                    EventStatus::Scheduled
                },
                home_team: rows[i].home_team,
                away_team: rows[i].away_team,
            };
            let e = self.events.len();
            self.events.push(row);
            if finished {
                let srow = FootballStatsRow {
                    event: e,
                    home_score: match rows[i].home_score {
                        Some(v) => v,
                        None => 0,
                    },
                    away_score: match rows[i].away_score {
                        Some(v) => v,
                        None => 0,
                    },
                    xg_home_milli: match rows[i].xg_home_milli {
                        Some(v) => v,
                        None => 0,
                    },
                    xg_away_milli: match rows[i].xg_away_milli {
                        Some(v) => v,
                        None => 0,
                    },
                    referee: match &rows[i].referee {
                        Some(r) => r.clone(),
                        None => String::new(),
                    },
                };
                self.football_stats.push(srow);
            }
            proof {
                assert(self@ =~= spec_migrate_row(prev, rv));
                assert(rows.deep_view().take(i + 1 as int).drop_last() =~= rows.deep_view().take(
                    i as int,
                ));
                assert(rows.deep_view().take(i + 1 as int).last() == rv);
            }
            i = i + 1;
        }
        proof {
            assert(rows.deep_view().take(n as int) =~= rows.deep_view());
        }
    }
}

impl Store {
    /// Appends one side's per-player fact rows, resolving each player by
    /// unique name.
    fn save_team_players(&mut self, event: usize, team: usize, players: &Vec<PlayerStats>)
        requires
            wf_v(old(self)@),
            event < old(self).events.len(),
            team < old(self).teams.len(),
            old(self).players.len() + players.len() <= usize::MAX,
        ensures
            final(self)@ == spec_save_team_players(
                old(self)@,
                event as int,
                team as int,
                players.deep_view(),
            ),
            wf_v(final(self)@),
            final(self)@.events == old(self)@.events,
            final(self)@.teams == old(self)@.teams,
            final(self)@.football_stats == old(self)@.football_stats,
            final(self)@.players.len() <= old(self)@.players.len() + players@.len(),
    {
        proof {
            lemma_save_team_players_wf(
                old(self)@,
                event as int,
                team as int,
                players.deep_view(),
            );
        }
        let n = players.len();
        let mut i: usize = 0;
        proof {
            assert(players.deep_view().take(0) =~= Seq::<PlayerStatsV>::empty());
        }
        while i < n
            invariant
                wf_v(old(self)@),
                n == players.len(),
                i <= n,
                event < old(self)@.events.len(),
                team < old(self)@.teams.len(),
                old(self)@.players.len() + n <= usize::MAX,
                self@ == spec_save_team_players(
                    old(self)@,
                    event as int,
                    team as int,
                    players.deep_view().take(i as int),
                ),
                self.events.len() == old(self).events.len(),
                self.teams.len() == old(self).teams.len(),
                self.players.len() <= old(self).players.len() + i,
                wf_v(self@),
            decreases n - i,
        {
            proof {
                lemma_save_team_players_wf(
                    old(self)@,
                    event as int,
                    team as int,
                    players.deep_view().take(i as int),
                );
            }
            let ghost prev = self@;
            let pi = self.get_or_insert_player(players[i].name.as_str());
            let row = PlayerMatchStatRow {
                player: pi,
                event,
                team,
                position: players[i].position.clone(),
                minutes: players[i].minutes,
                goals: players[i].goals,
                assists: players[i].assists,
                shots: players[i].shots,
                shots_on_target: players[i].shots_on_target,
                xg_milli: players[i].xg_milli,
                xa_milli: players[i].xa_milli,
                sca: players[i].sca,
                tackles: players[i].tackles,
                interceptions: players[i].interceptions,
                fouls_committed: players[i].fouls_committed,
                fouls_drawn: players[i].fouls_drawn,
            };
            self.player_match_stats.push(row);
            proof {
                assert(self@ =~= spec_add_player_row(
                    prev,
                    event as int,
                    team as int,
                    players.deep_view()[i as int],
                ));
                assert(players.deep_view().take(i + 1 as int).drop_last() =~= players.deep_view()
                    .take(i as int));
                assert(players.deep_view().take(i + 1 as int).last() == players.deep_view()[i as int]);
                lemma_save_team_players_wf(
                    old(self)@,
                    event as int,
                    team as int,
                    players.deep_view().take(i + 1 as int),
                );
            }
            i = i + 1;
        }
        proof {
            assert(players.deep_view().take(n as int) =~= players.deep_view());
        }
    }

    /// Saves one completed match with all its statistics; a match whose
    /// statistics row is already stored is left untouched, so a re-run never
    /// duplicates fact rows.
    pub fn save_match_complete(&mut self, stats: &FootballMatchStats, date: &str, url: &str)
        requires
            wf_v(old(self)@),
            old(self).teams.len() + 2 <= usize::MAX,
            old(self).events.len() < usize::MAX,
            old(self).players.len() + stats.home_stats.players.len()
                + stats.away_stats.players.len() <= usize::MAX,
        ensures
            final(self)@ == spec_save_match_complete(old(self)@, stats.deep_view(), date@, url@),
            wf_v(final(self)@),
    {
        proof {
            lemma_upsert_team_wf(old(self)@, stats.home_stats.name@, None);
        }
        let ghost s1 = spec_upsert_team(old(self)@, stats.home_stats.name@, None).0;
        let hi = self.upsert_team(stats.home_stats.name.as_str(), None);
        proof {
            lemma_upsert_team_wf(s1, stats.away_stats.name@, None);
        }
        let ai = self.upsert_team(stats.away_stats.name.as_str(), None);
        let ghost s2 = self@;
        match self.find_event(url) {
            Some(e) => {
                proof {
                    assert(event_index(s2, url@) == e as int);
                }
                if self.has_stats_row(e) {
                    assert(self@ =~= spec_save_match_complete(
                        old(self)@,
                        stats.deep_view(),
                        date@,
                        url@,
                    ));
                } else {
                    proof {
                        lemma_complete_existing_wf(
                            s2,
                            e as int,
                            hi as int,
                            ai as int,
                            stats.deep_view(),
                            date@,
                        );
                    }
                    let row = EventRow {
                        date: date.to_owned(),
                        time: match &self.events[e].time {
                            Some(t) => Some(t.clone()),
                            None => None,
                        },
                        venue: Some(stats.context.venue.clone()),
                        url: self.events[e].url.clone(),
                        status: EventStatus::Finished,
                        home_team: hi,
                        away_team: ai,
                    };
                    self.events[e] = row;
                    self.football_stats.push(
                        FootballStatsRow {
                            event: e,
                            home_score: stats.home_stats.goals,
                            away_score: stats.away_stats.goals,
                            xg_home_milli: stats.home_stats.xg_milli,
                            xg_away_milli: stats.away_stats.xg_milli,
                            referee: stats.context.referee.clone(),
                        },
                    );
                    assert(self@ =~= spec_complete_existing(
                        s2,
                        e as int,
                        hi as int,
                        ai as int,
                        stats.deep_view(),
                        date@,
                    ));
                    self.save_team_players(e, hi, &stats.home_stats.players);
                    self.save_team_players(e, ai, &stats.away_stats.players);
                    assert(self@ == spec_save_match_complete(
                        old(self)@,
                        stats.deep_view(),
                        date@,
                        url@,
                    ));
                }
            },
            None => {
                proof {
                    lemma_insert_finished_wf(
                        s2,
                        hi as int,
                        ai as int,
                        stats.deep_view(),
                        date@,
                        url@,
                    );
                }
                let e = self.events.len();
                let row = EventRow {
                    date: date.to_owned(),
                    time: None,
                    venue: Some(stats.context.venue.clone()),
                    url: url.to_owned(),
                    status: EventStatus::Finished,
                    home_team: hi,
                    away_team: ai,
                };
                self.events.push(row);
                self.football_stats.push(
                    FootballStatsRow {
                        event: e,
                        home_score: stats.home_stats.goals,
                        away_score: stats.away_stats.goals,
                        xg_home_milli: stats.home_stats.xg_milli,
                        xg_away_milli: stats.away_stats.xg_milli,
                        referee: stats.context.referee.clone(),
                    },
                );
                assert(self@ =~= spec_insert_finished(
                    s2,
                    hi as int,
                    ai as int,
                    stats.deep_view(),
                    date@,
                    url@,
                ));
                self.save_team_players(e, hi, &stats.home_stats.players);
                self.save_team_players(e, ai, &stats.away_stats.players);
                assert(self@ == spec_save_match_complete(
                    old(self)@,
                    stats.deep_view(),
                    date@,
                    url@,
                ));
            },
        }
    }
}

impl Store {
    /// A freshly initialised store: the tables exist and are empty.
    pub fn new() -> (s: Store)
        ensures
            s@.teams =~= Seq::<TeamV>::empty(),
            s@.events =~= Seq::<EventV>::empty(),
            s@.football_stats =~= Seq::<FootballStatsV>::empty(),
            s@.players =~= Seq::<PlayerV>::empty(),
            s@.player_match_stats =~= Seq::<PmsV>::empty(),
            wf_v(s@),
    {
        Store {
            teams: Vec::new(),
            events: Vec::new(),
            football_stats: Vec::new(),
            players: Vec::new(),
            player_match_stats: Vec::new(),
        }
    }
}

} // verus!
